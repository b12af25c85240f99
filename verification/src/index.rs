//! The schedule index: the parsed rule of every task whose recurrence parses,
//! by slug.

use vstd::prelude::*;
use crate::rule::parses;
use crate::rule::Rule;
use crate::rule::RuleError;
use crate::storage::EventView;
use crate::storage::Storage;
use crate::text::same_text;

verus! {

/// The index of a registry: each slug whose task has a recurrence that parses,
/// with that recurrence. Where tasks share a slug the last that parses counts.
pub open spec fn index_of(events: Seq<EventView>) -> Map<Seq<char>, Seq<char>>
    decreases events.len(),
{
    if events.len() == 0 {
        Map::empty()
    } else {
        let rest = index_of(events.drop_last());
        let last = events.last();
        if parses(last.cron) {
            rest.insert(last.slug, last.cron)
        } else {
            rest
        }
    }
}

/// A slug with its parsed rule.
#[derive(Debug)]
struct IndexEntry {
    slug: String,
    rule: Rule,
}

/// What a list of entries maps each slug to: the rule of the last entry with
/// that slug.
spec fn entries_map(entries: Seq<IndexEntry>) -> Map<Seq<char>, Seq<char>>
    decreases entries.len(),
{
    if entries.len() == 0 {
        Map::empty()
    } else {
        entries_map(entries.drop_last()).insert(entries.last().slug@, entries.last().rule@)
    }
}

/// A task that got no entry: its place in the registry and why its recurrence
/// did not parse.
#[derive(Debug)]
pub struct Skipped {
    pub place: usize,
    pub reason: RuleError,
}

/// The places that `skipped` names.
pub open spec fn places(skipped: Seq<Skipped>) -> Seq<usize> {
    skipped.map_values(|one: Skipped| one.place)
}

/// The parsed rules of a registry, by slug. The entries stand in a list in
/// the order of the registry and a lookup takes the last entry of the slug:
/// of a hash map with strings for keys nothing could be proved, as vstd gives
/// `String` no key model.
#[derive(Debug)]
pub struct ScheduleIndex {
    entries: Vec<IndexEntry>,
}

impl View for ScheduleIndex {
    type V = Map<Seq<char>, Seq<char>>;

    /// Each indexed slug with the expression of its rule.
    closed spec fn view(&self) -> Map<Seq<char>, Seq<char>> {
        entries_map(self.entries@)
    }
}

impl ScheduleIndex {
    /// The empty index.
    pub fn new() -> (r: ScheduleIndex)
        ensures
            r@ == Map::<Seq<char>, Seq<char>>::empty(),
    {
        ScheduleIndex { entries: Vec::new() }
    }

    /// Parses the recurrence of every task of `storage`. A task whose
    /// recurrence does not parse gets no entry; the second part of the result
    /// names it, in the order of the registry.
    pub fn build(storage: &Storage) -> (r: (ScheduleIndex, Vec<Skipped>))
        ensures
            r.0@ == index_of(storage@),
            places(r.1@) == unparsed(storage@),
    {
        let mut entries: Vec<IndexEntry> = Vec::new();
        let mut skipped: Vec<Skipped> = Vec::new();
        let mut i: usize = 0;
        proof {
            reveal(Seq::filter);
            assert(positions(storage@.take(0).len()).filter(fails_at(storage@)) =~= places(
                skipped@,
            ));
        }
        while i < storage.events.len()
            invariant
                i <= storage.events.len(),
                entries_map(entries@) == index_of(storage@.take(i as int)),
                places(skipped@) == positions(i as nat).filter(fails_at(storage@)),
            decreases storage.events.len() - i,
        {
            proof {
                reveal(Seq::filter);
                assert(storage@.take(i + 1).drop_last() =~= storage@.take(i as int));
                assert(storage@.take(i + 1).last() == storage@[i as int]);
                assert(positions((i + 1) as nat).drop_last() =~= positions(i as nat));
                assert(positions((i + 1) as nat).last() == i);
            }
            let event = &storage.events[i];
            match Rule::parse(event.cron.as_str()) {
                Ok(rule) => {
                    let entry = IndexEntry { slug: event.slug.clone(), rule };
                    proof {
                        assert(entries@.push(entry).drop_last() =~= entries@);
                    }
                    entries.push(entry);
                },
                Err(reason) => {
                    let one = Skipped { place: i, reason };
                    proof {
                        assert(places(skipped@.push(one)) =~= places(skipped@).push(i));
                    }
                    skipped.push(one);
                },
            }
            i += 1;
        }
        proof {
            assert(storage@.take(i as int) =~= storage@);
        }
        (ScheduleIndex { entries }, skipped)
    }

    /// The rule indexed under `slug`.
    pub fn get(&self, slug: &str) -> (r: Option<&Rule>)
        ensures
            r.is_some() == self@.dom().contains(slug@),
            r matches Some(rule) ==> rule@ == self@[slug@],
    {
        let mut i: usize = self.entries.len();
        proof {
            assert(self.entries@.take(i as int) =~= self.entries@);
        }
        while i > 0
            invariant
                i <= self.entries.len(),
                self@.dom().contains(slug@) == entries_map(self.entries@.take(i as int)).dom().contains(
                    slug@,
                ),
                self@.dom().contains(slug@) ==> self@[slug@] == entries_map(
                    self.entries@.take(i as int),
                )[slug@],
            decreases i,
        {
            proof {
                assert(self.entries@.take(i as int).drop_last() =~= self.entries@.take(i - 1));
                assert(self.entries@.take(i as int).last() == self.entries@[i - 1]);
            }
            i -= 1;
            if same_text(self.entries[i].slug.as_str(), slug) {
                return Some(&self.entries[i].rule);
            }
        }
        proof {
            assert(self.entries@.take(0).len() == 0);
        }
        None
    }
}

/// The places `0`, `1`, .. below `count`, in order.
pub open spec fn positions(count: nat) -> Seq<usize> {
    Seq::new(count, |at: int| at as usize)
}

/// The test for a place of `events` whose recurrence does not parse.
pub open spec fn fails_at(events: Seq<EventView>) -> spec_fn(usize) -> bool {
    |at: usize| !parses(events[at as int].cron)
}

/// The places of the records of `events` whose recurrence does not parse, in
/// order.
pub open spec fn unparsed(events: Seq<EventView>) -> Seq<usize> {
    positions(events.len()).filter(fails_at(events))
}

/// Whether some record of `events` has the slug `slug` and a recurrence that
/// parses.
pub open spec fn has_rule(events: Seq<EventView>, slug: Seq<char>) -> bool {
    exists|at: int|
        0 <= at < events.len() && (#[trigger] events[at]).slug == slug && parses(events[at].cron)
}

/// The index holds exactly the slugs of the tasks whose recurrence parses, and
/// what it holds for a slug is the recurrence of a task with that slug.
pub proof fn lemma_index_holds_rules(events: Seq<EventView>, slug: Seq<char>)
    ensures
        index_of(events).dom().contains(slug) == has_rule(events, slug),
        index_of(events).dom().contains(slug) ==> exists|at: int|
            0 <= at < events.len() && (#[trigger] events[at]).slug == slug && parses(
                events[at].cron,
            ) && index_of(events)[slug] == events[at].cron,
    decreases events.len(),
{
    if events.len() > 0 {
        let rest = events.drop_last();
        let last = events.last();
        lemma_index_holds_rules(rest, slug);
        if has_rule(rest, slug) {
            let at = choose|at: int|
                0 <= at < rest.len() && (#[trigger] rest[at]).slug == slug && parses(
                    rest[at].cron,
                ) && index_of(rest)[slug] == rest[at].cron;
            assert(events[at].slug == slug && parses(events[at].cron));
        }
        if has_rule(events, slug) {
            let at = choose|at: int|
                0 <= at < events.len() && (#[trigger] events[at]).slug == slug && parses(
                    events[at].cron,
                );
            if at < rest.len() {
                assert(rest[at].slug == slug && parses(rest[at].cron));
            }
        }
        if parses(last.cron) && last.slug == slug {
            assert(events[events.len() - 1].slug == slug);
        }
    }
}

/// Where slugs are unique, the index holds for a task whose recurrence parses
/// that very recurrence.
pub proof fn lemma_index_of_unique(events: Seq<EventView>, at: int)
    requires
        crate::storage::unique_slugs(events),
        0 <= at < events.len(),
        parses(events[at].cron),
    ensures
        index_of(events).dom().contains(events[at].slug),
        index_of(events)[events[at].slug] == events[at].cron,
{
    let slug = events[at].slug;
    lemma_index_holds_rules(events, slug);
    let found = choose|found: int|
        0 <= found < events.len() && (#[trigger] events[found]).slug == slug && parses(
            events[found].cron,
        ) && index_of(events)[slug] == events[found].cron;
    if found < at {
        assert(events[found].slug != events[at].slug);
    } else if at < found {
        assert(events[at].slug != events[found].slug);
    }
}

} // verus!
