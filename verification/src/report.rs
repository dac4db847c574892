//! The total of a decklist and the report of a pricing run.

use crate::resolve::{ResolutionFailure, ResolutionFailureView, ResolvedCard, ResolvedCardView};
use vstd::prelude::*;

verus! {

/// The price of all copies of one resolved entry, in cents.
pub open spec fn line_cents(card: ResolvedCardView) -> nat {
    card.entry.quantity * card.unit_price_cents
}

/// The price of a decklist in cents: for each resolved entry its quantity
/// times the price of one copy, added up.
pub open spec fn total_cents(cards: Seq<ResolvedCardView>) -> nat
    decreases cards.len(),
{
    if cards.len() == 0 {
        0
    } else {
        total_cents(cards.drop_last()) + line_cents(cards.last())
    }
}

/// A decklist without entries costs nothing.
pub proof fn lemma_total_of_none()
    ensures
        total_cents(Seq::<ResolvedCardView>::empty()) == 0,
{
}

/// A decklist of one entry costs the entry's quantity times the price of
/// one copy.
pub proof fn lemma_total_of_one(card: ResolvedCardView)
    ensures
        total_cents(seq![card]) == card.entry.quantity * card.unit_price_cents,
{
    let one = seq![card];
    assert(one.drop_last().len() == 0);
    assert(one.last() == card);
    assert(total_cents(one.drop_last()) == 0);
}

/// Two decklists together cost what they cost apart.
pub proof fn lemma_total_is_additive(first: Seq<ResolvedCardView>, second: Seq<ResolvedCardView>)
    ensures
        total_cents(first + second) == total_cents(first) + total_cents(second),
    decreases second.len(),
{
    if second.len() == 0 {
        assert(first + second == first);
    } else {
        assert((first + second).drop_last() == first + second.drop_last());
        lemma_total_is_additive(first, second.drop_last());
    }
}

/// The total is linear in the quantities: with `factor` times as many
/// copies of every entry, at the same prices, the decklist costs `factor`
/// times as much.
pub proof fn lemma_total_scales_with_quantity(
    cards: Seq<ResolvedCardView>,
    scaled: Seq<ResolvedCardView>,
    factor: nat,
)
    requires
        scaled.len() == cards.len(),
        forall|i: int|
            0 <= i < cards.len() ==> (#[trigger] scaled[i]).entry.quantity == factor
                * cards[i].entry.quantity,
        forall|i: int|
            0 <= i < cards.len() ==> (#[trigger] scaled[i]).unit_price_cents
                == cards[i].unit_price_cents,
    ensures
        total_cents(scaled) == factor * total_cents(cards),
    decreases cards.len(),
{
    if cards.len() > 0 {
        lemma_total_scales_with_quantity(cards.drop_last(), scaled.drop_last(), factor);
        let last = cards.last();
        assert(scaled.last() == scaled[cards.len() - 1]);
        assert(line_cents(scaled.last()) == factor * line_cents(last)) by (nonlinear_arith)
            requires
                scaled.last().entry.quantity == factor * last.entry.quantity,
                scaled.last().unit_price_cents == last.unit_price_cents,
        ;
        assert(factor * (total_cents(cards.drop_last()) + line_cents(last)) == factor
            * total_cents(cards.drop_last()) + factor * line_cents(last)) by (nonlinear_arith);
    } else {
        assert(factor * 0 == 0);
    }
}

/// The total is linear in the prices: with every price `factor` times as
/// high, for the same quantities, the decklist costs `factor` times as much.
pub proof fn lemma_total_scales_with_price(
    cards: Seq<ResolvedCardView>,
    scaled: Seq<ResolvedCardView>,
    factor: nat,
)
    requires
        scaled.len() == cards.len(),
        forall|i: int|
            0 <= i < cards.len() ==> (#[trigger] scaled[i]).entry.quantity
                == cards[i].entry.quantity,
        forall|i: int|
            0 <= i < cards.len() ==> (#[trigger] scaled[i]).unit_price_cents == factor
                * cards[i].unit_price_cents,
    ensures
        total_cents(scaled) == factor * total_cents(cards),
    decreases cards.len(),
{
    if cards.len() > 0 {
        lemma_total_scales_with_price(cards.drop_last(), scaled.drop_last(), factor);
        let last = cards.last();
        assert(scaled.last() == scaled[cards.len() - 1]);
        assert(line_cents(scaled.last()) == factor * line_cents(last)) by (nonlinear_arith)
            requires
                scaled.last().entry.quantity == last.entry.quantity,
                scaled.last().unit_price_cents == factor * last.unit_price_cents,
        ;
        assert(factor * (total_cents(cards.drop_last()) + line_cents(last)) == factor
            * total_cents(cards.drop_last()) + factor * line_cents(last)) by (nonlinear_arith);
    } else {
        assert(factor * 0 == 0);
    }
}

/// The price of a decklist in cents.
pub fn compute_decklist_price(decklist: &[ResolvedCard]) -> (total: u128)
    ensures
        total == total_cents(decklist.deep_view()),
{
    let ghost cards = decklist.deep_view();
    let mut total: u128 = 0;
    let mut i: usize = 0;
    proof {
        assert(cards.take(0).len() == 0);
    }
    while i < decklist.len()
        invariant
            i <= decklist.len(),
            cards == decklist.deep_view(),
            total == total_cents(cards.take(i as int)),
            total <= i * 0xffff_ffff_ffff_ffff,
        decreases decklist.len() - i,
    {
        let line: u64 = decklist[i].line_total_cents();
        proof {
            assert(cards.take(i + 1).drop_last() == cards.take(i as int));
            assert(cards.take(i + 1).last() == decklist[i as int]@);
            assert((i + 1) * 0xffff_ffff_ffff_ffff <= 0xffff_ffff_ffff_ffff
                * 0xffff_ffff_ffff_ffff) by (nonlinear_arith)
                requires
                    i + 1 <= 0xffff_ffff_ffff_ffff,
            ;
            assert(i * 0xffff_ffff_ffff_ffff + 0xffff_ffff_ffff_ffff == (i + 1)
                * 0xffff_ffff_ffff_ffff) by (nonlinear_arith);
        }
        total = total + line as u128;
        i += 1;
    }
    proof {
        assert(cards.take(i as int) == cards);
    }
    total
}

/// What a pricing run gives: the entries that have a price, the entries
/// that have none and why, and the total of those that have one.
#[derive(Debug)]
pub struct PricingReport {
    resolved: Vec<ResolvedCard>,
    failures: Vec<ResolutionFailure>,
    total_cents: u128,
}

/// The mathematical value of a [`PricingReport`].
pub struct PricingReportView {
    pub resolved: Seq<ResolvedCardView>,
    pub failures: Seq<ResolutionFailureView>,
    pub total_cents: nat,
}

impl View for PricingReport {
    type V = PricingReportView;

    closed spec fn view(&self) -> PricingReportView {
        PricingReportView {
            resolved: self.resolved.deep_view(),
            failures: self.failures.deep_view(),
            total_cents: self.total_cents as nat,
        }
    }
}

impl PricingReport {
    #[verifier::type_invariant]
    spec fn well_formed(self) -> bool {
        self.total_cents == total_cents(self.resolved.deep_view())
    }

    /// The report of a run that resolved `resolved` and failed on
    /// `failures`.
    pub fn new(resolved: Vec<ResolvedCard>, failures: Vec<ResolutionFailure>) -> (report: Self)
        ensures
            report@ == (PricingReportView {
                resolved: resolved.deep_view(),
                failures: failures.deep_view(),
                total_cents: total_cents(resolved.deep_view()),
            }),
    {
        let cards = resolved.as_slice();
        proof {
            assert(cards.deep_view() == resolved.deep_view());
        }
        let total_cents = compute_decklist_price(cards);
        PricingReport { resolved, failures, total_cents }
    }

    /// The entries that have a price, in the order they were resolved in.
    pub fn resolved(&self) -> (resolved: &Vec<ResolvedCard>)
        ensures
            resolved.deep_view() == self@.resolved,
    {
        &self.resolved
    }

    /// The entries that have no price, in the order they failed in.
    pub fn failures(&self) -> (failures: &Vec<ResolutionFailure>)
        ensures
            failures.deep_view() == self@.failures,
    {
        &self.failures
    }

    /// The total of the resolved entries, in cents.
    pub fn total_cents(&self) -> (total: u128)
        ensures
            total == self@.total_cents,
            total == total_cents(self@.resolved),
    {
        proof {
            use_type_invariant(self);
        }
        self.total_cents
    }

    /// Whether the total leaves entries out. Entries without a price add
    /// nothing to it, so with any of them the total is a lower bound of what
    /// the decklist costs.
    pub fn total_is_lower_bound(&self) -> (partial: bool)
        ensures
            partial == (self@.failures.len() > 0),
    {
        self.failures.len() > 0
    }
}

} // verus!
