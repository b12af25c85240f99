//! The task registry: the records and the collection that holds them.

use vstd::prelude::*;
use crate::rule::instant_of;
use crate::text::same_text;
use crate::time::Timestamp;

verus! {

/// The directory under the user's home that holds the registry and the PID
/// marker.
pub const DIRECTORY: &'static str = ".singleschedule";

/// The registry's file in that directory.
pub const REGISTRY_FILE: &'static str = "events.json";

/// A registered task.
#[derive(Debug)]
pub struct Event {
    /// The task's key, unique in a registry.
    pub slug: String,
    /// The recurrence, a six-field cron expression.
    pub cron: String,
    /// The command line to run.
    pub command: String,
    /// A process id kept with the task.
    pub pid: Option<u32>,
    /// When the task was registered.
    pub created_at: Timestamp,
    /// When the scheduler last ran the task, if it ever did.
    pub last_run: Option<Timestamp>,
    /// Whether the scheduler considers the task at all.
    pub active: bool,
}

/// What a task record says, as plain values. Instants are in nanoseconds since
/// the epoch.
pub struct EventView {
    pub slug: Seq<char>,
    pub cron: Seq<char>,
    pub command: Seq<char>,
    pub pid: Option<u32>,
    pub created_at: int,
    pub last_run: Option<int>,
    pub active: bool,
}

impl View for Event {
    type V = EventView;

    open spec fn view(&self) -> EventView {
        EventView {
            slug: self.slug@,
            cron: self.cron@,
            command: self.command@,
            pid: self.pid,
            created_at: self.created_at@,
            last_run: instant_of(self.last_run),
            active: self.active,
        }
    }
}

impl Clone for Event {
    fn clone(&self) -> (r: Event)
        ensures
            r@ == self@,
    {
        Event {
            slug: self.slug.clone(),
            cron: self.cron.clone(),
            command: self.command.clone(),
            pid: self.pid,
            created_at: self.created_at,
            last_run: self.last_run,
            active: self.active,
        }
    }
}

/// What the records of `events` say.
pub open spec fn views(events: Seq<Event>) -> Seq<EventView> {
    events.map_values(|event: Event| event@)
}

/// Appending a record appends what it says.
pub proof fn lemma_views_push(events: Seq<Event>, event: Event)
    ensures
        views(events.push(event)) == views(events).push(event@),
{
    assert(views(events.push(event)) =~= views(events).push(event@));
}

/// Whether some record of `events` has the slug `slug`.
pub open spec fn has_slug(events: Seq<EventView>, slug: Seq<char>) -> bool {
    exists|i: int| 0 <= i < events.len() && #[trigger] events[i].slug == slug
}

/// Whether no two records of `events` share a slug.
pub open spec fn unique_slugs(events: Seq<EventView>) -> bool {
    forall|i: int, j: int|
        0 <= i < j < events.len() ==> #[trigger] events[i].slug != #[trigger] events[j].slug
}

/// The registry: every task, in the order of registration.
#[derive(Debug)]
pub struct Storage {
    pub events: Vec<Event>,
}

impl View for Storage {
    type V = Seq<EventView>;

    open spec fn view(&self) -> Seq<EventView> {
        views(self.events@)
    }
}

impl Clone for Storage {
    fn clone(&self) -> (r: Storage)
        ensures
            r@ == self@,
    {
        let mut events: Vec<Event> = Vec::new();
        let mut i: usize = 0;
        while i < self.events.len()
            invariant
                i <= self.events.len(),
                views(events@) == self@.take(i as int),
            decreases self.events.len() - i,
        {
            let copy = self.events[i].clone();
            proof {
                lemma_views_push(events@, copy);
                assert(self@.take(i + 1) =~= self@.take(i as int).push(self@[i as int]));
            }
            events.push(copy);
            i += 1;
        }
        assert(self@.take(i as int) =~= self@);
        Storage { events }
    }
}

impl Default for Storage {
    fn default() -> (r: Storage)
        ensures
            r@ == Seq::<EventView>::empty(),
    {
        Storage::new()
    }
}

impl Storage {
    /// The empty registry.
    pub fn new() -> (r: Storage)
        ensures
            r@ == Seq::<EventView>::empty(),
    {
        let r = Storage { events: Vec::new() };
        assert(r@ =~= Seq::<EventView>::empty());
        r
    }

    /// Whether the registry satisfies its invariant: slugs are unique.
    pub open spec fn wf(&self) -> bool {
        unique_slugs(self@)
    }

    /// The place of the first task with the slug `slug`.
    pub fn position(&self, slug: &str) -> (r: Option<usize>)
        ensures
            r.is_some() == has_slug(self@, slug@),
            r matches Some(at) ==> at < self@.len() && self@[at as int].slug == slug@
                && !has_slug(self@.take(at as int), slug@),
    {
        let mut i: usize = 0;
        while i < self.events.len()
            invariant
                i <= self.events.len(),
                !has_slug(self@.take(i as int), slug@),
            decreases self.events.len() - i,
        {
            if same_text(self.events[i].slug.as_str(), slug) {
                assert(self@[i as int].slug == slug@);
                return Some(i);
            }
            proof {
                let seen = self@.take(i as int);
                let next = self@.take(i + 1);
                assert forall|j: int| 0 <= j < next.len() implies #[trigger] next[j].slug
                    != slug@ by {
                    if j < i {
                        assert(seen[j].slug == next[j].slug);
                    }
                }
            }
            i += 1;
        }
        assert(self@.take(i as int) =~= self@);
        None
    }
}

} // verus!
