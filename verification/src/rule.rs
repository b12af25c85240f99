//! Recurrence rules: six-field cron expressions, parsed and explored by the
//! `cron` crate, and the decision whether a task is due.

use vstd::prelude::*;
use vstd::string::StringExecFns;
use chrono::DateTime;
use chrono::Utc;
use cron::Schedule;
use std::str::FromStr;
use crate::time::in_range;
use crate::time::instant;
use crate::time::NANOS_PER_SECOND;
use crate::time::Timestamp;

verus! {

/// A task may fire this many seconds before its occurrence comes.
pub const TOLERANCE_SECONDS: i64 = 30;

/// `cron::Schedule`, a parsed cron expression. Nothing inside it is visible here.
#[verifier::external_type_specification]
#[verifier::external_body]
pub struct ExSchedule(cron::Schedule);

/// `cron::error::Error`, the reason an expression did not parse.
#[verifier::external_type_specification]
#[verifier::external_body]
pub struct ExCronError(cron::error::Error);

/// Whether `Schedule::from_str` accepts `expression`.
pub uninterp spec fn parses(expression: Seq<char>) -> bool;

/// The expression that `schedule` was parsed from, which `Schedule::source`
/// returns.
pub uninterp spec fn schedule_source(schedule: Schedule) -> Seq<char>;

/// The first item of `Schedule::after` for the schedule parsed from `source`
/// and the instant `secs` seconds and `nanos` nanoseconds after the epoch, in
/// seconds and nanoseconds too.
pub uninterp spec fn occurrence_after(source: Seq<char>, secs: i64, nanos: u32) -> Option<
    (i64, u32),
>;

/// Calls `Schedule::from_str`. Whether it succeeds depends on the expression
/// alone, and the schedule it builds keeps the expression as its source.
#[verifier::external_body]
fn parse_schedule(expression: &str) -> (r: Result<Schedule, cron::error::Error>)
    ensures
        r.is_ok() == parses(expression@),
        r matches Ok(schedule) ==> schedule_source(schedule) == expression@,
{
    Schedule::from_str(expression)
}

/// Calls `Schedule::source`.
#[verifier::external_body]
fn source_of(schedule: &Schedule) -> (r: &str)
    ensures
        r@ == schedule_source(*schedule),
{
    schedule.source()
}

/// Renders a `cron::error::Error` with its `Display` impl.
#[verifier::external_body]
fn error_text(error: &cron::error::Error) -> String {
    error.to_string()
}

/// Calls `Schedule::after` on the instant `secs` seconds and `nanos`
/// nanoseconds after the epoch and takes the iterator's first item. What comes
/// back depends on the schedule's source and on the instant alone.
#[verifier::external_body]
fn first_after(schedule: &Schedule, secs: i64, nanos: u32) -> (r: Option<(i64, u32)>)
    requires
        in_range(secs as int, nanos as int),
    ensures
        r == occurrence_after(schedule_source(*schedule), secs, nanos),
{
    let base = DateTime::<Utc>::from_timestamp(secs, nanos)?;
    let next = schedule.after(&base).next()?;
    Some((next.timestamp(), next.timestamp_subsec_nanos()))
}

/// Why an expression is no recurrence rule.
#[derive(Debug)]
pub struct RuleError {
    /// What the parser said.
    pub detail: String,
}

impl RuleError {
    /// The text shown to the user.
    pub fn message(&self) -> (text: String)
        ensures
            text@ == "Invalid cron expression: "@ + self.detail@,
    {
        let mut text = "Invalid cron expression: ".to_owned();
        text.append(self.detail.as_str());
        text
    }
}

/// A parsed recurrence rule.
#[derive(Debug)]
pub struct Rule {
    schedule: Schedule,
}

impl View for Rule {
    type V = Seq<char>;

    /// The expression the rule was parsed from.
    closed spec fn view(&self) -> Seq<char> {
        schedule_source(self.schedule)
    }
}

/// The baseline of a task that has never run: the Unix epoch.
pub open spec fn baseline(last_run: Option<int>) -> int {
    match last_run {
        Some(at) => at,
        None => 0,
    }
}

/// What counts of an occurrence that was found after `after`: its instant, if
/// it is a supported one and later than `after`.
pub open spec fn accepted(found: Option<(i64, u32)>, after: int) -> Option<int> {
    match found {
        Some((secs, nanos)) => if in_range(secs as int, nanos as int) && after < instant(
            secs as int,
            nanos as int,
        ) {
            Some(instant(secs as int, nanos as int))
        } else {
            None
        },
        None => None,
    }
}

/// The first occurrence of the rule `source` that is later than `after`, if
/// there is one among the supported instants.
pub open spec fn next_occurrence(source: Seq<char>, after: int) -> Option<int> {
    accepted(
        occurrence_after(
            source,
            (after / (NANOS_PER_SECOND as int)) as i64,
            (after % (NANOS_PER_SECOND as int)) as u32,
        ),
        after,
    )
}

/// The last instant at which an occurrence may lie for a task to be due at
/// `now`.
pub open spec fn horizon(now: int) -> int {
    now + TOLERANCE_SECONDS * NANOS_PER_SECOND
}

/// Whether a task with the rule `source` that last ran at `last_run` is due at
/// `now`: its first occurrence after the baseline is no later than `now` plus
/// the tolerance. All instants are in nanoseconds since the epoch.
pub open spec fn due_at(source: Seq<char>, last_run: Option<int>, now: int) -> bool {
    within_horizon(next_occurrence(source, baseline(last_run)), now)
}

/// Whether there is a next occurrence and it is no later than `now` plus the
/// tolerance.
pub open spec fn within_horizon(next: Option<int>, now: int) -> bool {
    match next {
        Some(at) => at <= horizon(now),
        None => false,
    }
}

/// The last run that a run at `now` leaves behind: `now`, or the last run
/// that was there before where that is later. A last run never goes back.
pub open spec fn recorded_run(last_run: Option<int>, now: int) -> int {
    match last_run {
        Some(before) => if now < before {
            before
        } else {
            now
        },
        None => now,
    }
}

/// The instant of an optional timestamp.
pub open spec fn instant_of(at: Option<Timestamp>) -> Option<int> {
    match at {
        Some(t) => Some(t@),
        None => None,
    }
}

/// Takes what the search for an occurrence after `after` found, in seconds
/// and nanoseconds since the epoch: it counts if it is a supported instant
/// and later than `after`.
pub fn accept(found: Option<(i64, u32)>, after: &Timestamp) -> (r: Option<Timestamp>)
    ensures
        instant_of(r) == accepted(found, after@),
{
    match found {
        Some((secs, nanos)) => match Timestamp::new(secs, nanos) {
            Some(next) => if !next.at_or_before(after) {
                Some(next)
            } else {
                None
            },
            None => None,
        },
        None => None,
    }
}

/// Whether a task whose next occurrence is `next` is due at `now`: there is
/// such an occurrence, and it is no later than `now` plus the tolerance.
pub fn within_tolerance(next: &Option<Timestamp>, now: &Timestamp) -> (due: bool)
    ensures
        due == within_horizon(instant_of(*next), now@),
{
    match next {
        Some(at) => {
            let limit: i64 = now.seconds() + TOLERANCE_SECONDS;
            at.seconds() < limit || (at.seconds() == limit && at.subsec_nanos()
                <= now.subsec_nanos())
        },
        None => false,
    }
}

/// The last run to keep after a run at `now`: the later of `now` and the last
/// run so far.
pub fn record_run(last_run: &Option<Timestamp>, now: Timestamp) -> (r: Timestamp)
    ensures
        r@ == recorded_run(instant_of(*last_run), now@),
{
    match last_run {
        Some(before) => if before.at_or_before(&now) {
            now
        } else {
            *before
        },
        None => now,
    }
}

impl Rule {
    /// Parses a cron expression.
    pub fn parse(expression: &str) -> (r: Result<Rule, RuleError>)
        ensures
            r.is_ok() == parses(expression@),
            r matches Ok(rule) ==> rule@ == expression@,
    {
        match parse_schedule(expression) {
            Ok(schedule) => Ok(Rule { schedule }),
            Err(error) => Err(RuleError { detail: error_text(&error) }),
        }
    }

    /// The expression the rule was parsed from.
    pub fn expression(&self) -> (r: &str)
        ensures
            r@ == self@,
    {
        source_of(&self.schedule)
    }

    /// The rule's first occurrence after `after`, if it has one.
    pub fn next_after(&self, after: &Timestamp) -> (r: Option<Timestamp>)
        ensures
            instant_of(r) == next_occurrence(self@, after@),
    {
        let secs = after.seconds();
        let nanos = after.subsec_nanos();
        assert(after@ / (NANOS_PER_SECOND as int) == secs && after@ % (NANOS_PER_SECOND as int)
            == nanos);
        accept(first_after(&self.schedule, secs, nanos), after)
    }

    /// Whether a task with this rule that last ran at `last_run` is due at `now`.
    pub fn is_due(&self, last_run: &Option<Timestamp>, now: &Timestamp) -> (due: bool)
        ensures
            due == due_at(self@, instant_of(*last_run), now@),
    {
        let next = match last_run {
            Some(at) => self.next_after(at),
            None => self.next_after(&Timestamp::epoch()),
        };
        within_tolerance(&next, now)
    }
}

/// A task that has never run is due as soon as the first occurrence of its
/// rule after the epoch has come. However often that is asked at one instant,
/// the answer is the same: it depends on the rule, the last run and the instant
/// alone.
pub proof fn lemma_never_run_is_due(source: Seq<char>, occurrence: int, now: int)
    requires
        next_occurrence(source, 0) == Some(occurrence),
        occurrence <= now,
    ensures
        due_at(source, None, now),
{
}

/// Once the last run is at or past an occurrence, that occurrence no longer
/// makes the task due: what `due_at` then looks at is a later one.
pub proof fn lemma_run_passes_occurrence(
    source: Seq<char>,
    occurrence: int,
    last_run: int,
    now: int,
)
    requires
        occurrence <= last_run,
        due_at(source, Some(last_run), now),
    ensures
        next_occurrence(source, last_run) matches Some(next) && occurrence < next
            && next <= horizon(now),
{
}

/// A run at `now` leaves a last run that is neither before `now` nor before
/// the last run so far.
pub proof fn lemma_recorded_run_is_later(last_run: Option<int>, now: int)
    ensures
        now <= recorded_run(last_run, now),
        last_run matches Some(before) ==> before <= recorded_run(last_run, now),
        recorded_run(last_run, now) == now || last_run == Some(recorded_run(last_run, now)),
{
}

/// A task that ran at `now` is not due again at `now` by the last run that
/// the run left behind, unless its rule has an occurrence later than that
/// last run and within the tolerance after `now`.
pub proof fn lemma_no_double_fire(source: Seq<char>, last_run: Option<int>, now: int)
    requires
        next_occurrence(source, recorded_run(last_run, now)) matches Some(next) ==> horizon(now)
            < next,
    ensures
        !due_at(source, Some(recorded_run(last_run, now)), now),
{
}

/// A task stays due while time passes and its last run stays what it is.
pub proof fn lemma_due_stays_due(source: Seq<char>, last_run: Option<int>, now: int, later: int)
    requires
        due_at(source, last_run, now),
        now <= later,
    ensures
        due_at(source, last_run, later),
{
}

} // verus!
