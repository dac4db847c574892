//! A pricing run, step by step.
//!
//! A run starts from the text of a decklist. All lines are validated before
//! anything is looked up: one line that is no entry ends the run with that
//! line's error. The entries are then put in order and resolved one after
//! the other. The run says what to look up next; the caller waits until the
//! price source may be asked again, asks it, and hands the outcome back.
//! When no entry is left the run gives its report.

use crate::entry::{validate_card_list, Entry, EntryView, ParseError, ParseErrorView, parse_all};
use crate::lines::{entry_lines, split_lines};
use crate::normalize::{normalize, normalized};
use crate::report::{total_cents, PricingReport, PricingReportView};
use crate::resolve::{
    cheapest_printing, cheapest_printing_query, resolution, resolve, CardQuery, Lookup,
    LookupView, ResolutionFailure, ResolutionFailureView, ResolvedCard, ResolvedCardView,
};
use vstd::prelude::*;

verus! {

/// Why a run could not start.
#[derive(Debug)]
pub enum PipelineError {
    /// A line of the decklist is no entry.
    Validation(ParseError),
}

impl PipelineError {
    /// The error in words: what is wrong with which line.
    pub fn message(&self) -> (message: String)
        ensures
            message@ == match self {
                PipelineError::Validation(ParseError::InvalidFormat(line)) =>
                    "Invalid card entry format: "@ + line@,
                PipelineError::Validation(ParseError::InvalidQuantity(line)) =>
                    "Invalid count in entry: "@ + line@,
            },
    {
        match self {
            PipelineError::Validation(error) => error.message(),
        }
    }
}

/// What the caller is to do next.
#[derive(Debug)]
pub enum Step {
    /// Ask the price source `query`, not sooner than `min_interval_ms`
    /// milliseconds after the lookup before began, and record the outcome.
    Lookup { query: CardQuery, min_interval_ms: u64 },
    /// Nothing is left to look up: take the report.
    Finished,
}

/// A pricing run: the entries still to resolve, in order, and what became
/// of those before them.
#[derive(Debug)]
pub struct Pipeline {
    pending: Vec<Entry>,
    resolved: Vec<ResolvedCard>,
    failures: Vec<ResolutionFailure>,
    request_interval_ms: u64,
}

/// The mathematical value of a [`Pipeline`].
pub struct PipelineView {
    pub pending: Seq<EntryView>,
    pub resolved: Seq<ResolvedCardView>,
    pub failures: Seq<ResolutionFailureView>,
    pub request_interval_ms: nat,
}

impl View for Pipeline {
    type V = PipelineView;

    closed spec fn view(&self) -> PipelineView {
        PipelineView {
            pending: self.pending.deep_view(),
            resolved: self.resolved.deep_view(),
            failures: self.failures.deep_view(),
            request_interval_ms: self.request_interval_ms as nat,
        }
    }
}

/// The entries that a decklist's text holds, validated and in order, or the
/// error of the first line that is no entry.
pub open spec fn prepared(text: Seq<char>) -> Result<Seq<EntryView>, ParseErrorView> {
    match parse_all(entry_lines(text)) {
        Ok(entries) => Ok(normalized(entries)),
        Err(error) => Err(error),
    }
}

/// The run as it starts on `entries`: all of them pending, none resolved,
/// none failed.
pub open spec fn started(entries: Seq<EntryView>, request_interval_ms: nat) -> PipelineView {
    PipelineView {
        pending: entries,
        resolved: Seq::empty(),
        failures: Seq::empty(),
        request_interval_ms,
    }
}

/// The run after the outcome of the lookup for its first pending entry:
/// that entry has left the pending ones and stands last among the resolved
/// or among the failed, as the outcome decides.
pub open spec fn recorded(run: PipelineView, lookup: LookupView) -> PipelineView
    recommends
        run.pending.len() > 0,
{
    match resolution(run.pending.first(), lookup) {
        Ok(card) => PipelineView {
            pending: run.pending.drop_first(),
            resolved: run.resolved.push(card),
            failures: run.failures,
            request_interval_ms: run.request_interval_ms,
        },
        Err(failure) => PipelineView {
            pending: run.pending.drop_first(),
            resolved: run.resolved,
            failures: run.failures.push(failure),
            request_interval_ms: run.request_interval_ms,
        },
    }
}

/// Whatever a lookup gives, recording it moves one entry and loses none:
/// one entry fewer is pending and one more is resolved or failed.
pub proof fn lemma_record_keeps_count(run: PipelineView, lookup: LookupView)
    requires
        run.pending.len() > 0,
    ensures
        recorded(run, lookup).pending.len() == run.pending.len() - 1,
        recorded(run, lookup).resolved.len() + recorded(run, lookup).failures.len()
            == run.resolved.len() + run.failures.len() + 1,
{
}

/// The run after the outcomes `lookups`, recorded one after the other for
/// as long as an entry is pending.
pub open spec fn recorded_all(run: PipelineView, lookups: Seq<LookupView>) -> PipelineView
    decreases lookups.len(),
{
    if lookups.len() == 0 || run.pending.len() == 0 {
        run
    } else {
        recorded_all(recorded(run, lookups.first()), lookups.drop_first())
    }
}

/// No outcome stops a run. Given one outcome for each pending entry, the
/// run ends with no entry pending and each of them either resolved or
/// failed, whatever the outcomes were.
pub proof fn lemma_run_accounts_for_every_entry(run: PipelineView, lookups: Seq<LookupView>)
    requires
        lookups.len() == run.pending.len(),
    ensures
        recorded_all(run, lookups).pending.len() == 0,
        recorded_all(run, lookups).resolved.len() + recorded_all(run, lookups).failures.len()
            == run.resolved.len() + run.failures.len() + run.pending.len(),
        recorded_all(run, lookups).request_interval_ms == run.request_interval_ms,
    decreases lookups.len(),
{
    if lookups.len() > 0 {
        lemma_record_keeps_count(run, lookups.first());
        lemma_run_accounts_for_every_entry(recorded(run, lookups.first()), lookups.drop_first());
    }
}

/// Lookups that find no printing add nothing to what is resolved: after a
/// run of them the resolved entries and their total are what they were. A
/// run that starts with them alone ends with a total of zero.
pub proof fn lemma_run_of_failures(run: PipelineView, lookups: Seq<LookupView>)
    requires
        lookups.len() == run.pending.len(),
        forall|i: int| 0 <= i < lookups.len() ==> !(#[trigger] lookups[i] is Found),
    ensures
        recorded_all(run, lookups).resolved == run.resolved,
        total_cents(recorded_all(run, lookups).resolved) == total_cents(run.resolved),
        run.resolved.len() == 0 ==> total_cents(recorded_all(run, lookups).resolved) == 0,
    decreases lookups.len(),
{
    if lookups.len() > 0 {
        let rest = lookups.drop_first();
        assert forall|i: int| 0 <= i < rest.len() implies !(#[trigger] rest[i] is Found) by {
            assert(rest[i] == lookups[i + 1]);
        }
        assert(!(lookups[0] is Found));
        lemma_run_of_failures(recorded(run, lookups.first()), rest);
    }
}

impl Pipeline {
    #[verifier::type_invariant]
    spec fn well_formed(self) -> bool {
        self.request_interval_ms > 0
    }

    /// Starts a run on the text of a decklist, with lookups to be at least
    /// `request_interval_ms` milliseconds apart. Nothing is looked up unless
    /// every line that is not blank is an entry.
    pub fn start(raw_text: &str, request_interval_ms: u64) -> (result: Result<
        Pipeline,
        PipelineError,
    >)
        requires
            request_interval_ms > 0,
        ensures
            match result {
                Ok(run) => prepared(raw_text@) == Ok::<Seq<EntryView>, ParseErrorView>(
                    run@.pending,
                ) && run@ == started(run@.pending, request_interval_ms as nat),
                Err(PipelineError::Validation(error)) => prepared(raw_text@) == Err::<
                    Seq<EntryView>,
                    ParseErrorView,
                >(error@),
            },
    {
        let lines = split_lines(raw_text);
        let mut texts: Vec<&str> = Vec::new();
        let mut i: usize = 0;
        while i < lines.len()
            invariant
                i <= lines.len(),
                texts.len() == i,
                forall|k: int| 0 <= k < i ==> (#[trigger] texts@[k])@ == lines@[k]@,
            decreases lines.len() - i,
        {
            texts.push(lines[i].as_str());
            i += 1;
        }
        let slice = texts.as_slice();
        proof {
            assert(slice.deep_view() == lines.deep_view());
        }
        match validate_card_list(slice) {
            Err(error) => Err(PipelineError::Validation(error)),
            Ok(entries) => {
                let pending = normalize(entries);
                let resolved: Vec<ResolvedCard> = Vec::new();
                let failures: Vec<ResolutionFailure> = Vec::new();
                proof {
                    assert(resolved.deep_view() == Seq::<ResolvedCardView>::empty());
                    assert(failures.deep_view() == Seq::<ResolutionFailureView>::empty());
                }
                Ok(Pipeline { pending, resolved, failures, request_interval_ms })
            },
        }
    }

    /// Whether every entry has been resolved or has failed.
    pub fn is_finished(&self) -> (finished: bool)
        ensures
            finished == (self@.pending.len() == 0),
    {
        self.pending.len() == 0
    }

    /// What to do next: look up the first pending entry's card, or, with no
    /// entry pending, take the report.
    pub fn next_step(&self) -> (step: Step)
        ensures
            match step {
                Step::Lookup { query, min_interval_ms } => {
                    &&& self@.pending.len() > 0
                    &&& query@ == cheapest_printing(self@.pending.first().name)
                    &&& min_interval_ms == self@.request_interval_ms
                    &&& min_interval_ms > 0
                },
                Step::Finished => self@.pending.len() == 0,
            },
    {
        proof {
            use_type_invariant(self);
        }
        if self.pending.len() == 0 {
            Step::Finished
        } else {
            let query = cheapest_printing_query(self.pending[0].card_name());
            Step::Lookup { query, min_interval_ms: self.request_interval_ms }
        }
    }

    /// The run after the outcome of the lookup for its first pending entry.
    /// Whatever the outcome, the run goes on with the next entry.
    pub fn record(self, lookup: Lookup) -> (next: Pipeline)
        requires
            self@.pending.len() > 0,
        ensures
            next@ == recorded(self@, lookup@),
    {
        proof {
            use_type_invariant(&self);
        }
        let ghost before = self@;
        let Pipeline { mut pending, mut resolved, mut failures, request_interval_ms } = self;
        let entry = pending.remove(0);
        proof {
            assert(pending.deep_view() == before.pending.drop_first());
            assert(entry@ == before.pending.first());
        }
        match resolve(entry, lookup) {
            Ok(card) => {
                resolved.push(card);
                proof {
                    assert(resolved.deep_view() == before.resolved.push(card@));
                }
            },
            Err(failure) => {
                failures.push(failure);
                proof {
                    assert(failures.deep_view() == before.failures.push(failure@));
                }
            },
        }
        Pipeline { pending, resolved, failures, request_interval_ms }
    }

    /// The report of a finished run: the resolved entries, the failed ones,
    /// and the total of the resolved.
    pub fn finish(self) -> (report: PricingReport)
        requires
            self@.pending.len() == 0,
        ensures
            report@ == (PricingReportView {
                resolved: self@.resolved,
                failures: self@.failures,
                total_cents: total_cents(self@.resolved),
            }),
    {
        PricingReport::new(self.resolved, self.failures)
    }
}

} // verus!
