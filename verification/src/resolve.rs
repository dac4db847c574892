//! What a price lookup is asked, what it may answer, and what the answer
//! means for an entry of the decklist.
//!
//! The library does not look a card up itself. It says what to ask for, as
//! a [`CardQuery`], and takes the outcome back as a [`Lookup`]. An entry is
//! then resolved to the cheapest printing with its price, or it fails, and
//! the failure is kept with the entry: one card without a price never stops
//! the pricing of the others.

use crate::entry::{Entry, EntryView};
use crate::price::{parse_price, price_u32};
use vstd::prelude::*;
use vstd::string::StringExecFns;

verus! {

/// What to ask the price source for one card: the cheapest printing on
/// paper that has a price.
#[derive(Debug)]
pub struct CardQuery {
    /// The card's name, to be matched exactly.
    pub exact_name: String,
    /// Whether printings that exist only in digital form may be returned.
    pub include_digital: bool,
    /// Whether only printings with a price above zero may be returned.
    pub priced_only: bool,
    /// Whether the printings are to come cheapest first.
    pub cheapest_first: bool,
    /// Whether extra printings, such as those with alternate art, may be
    /// returned.
    pub include_extras: bool,
    /// Whether printings that differ from another only in looks may be
    /// returned.
    pub include_variations: bool,
    /// Whether each printing is to come once.
    pub one_per_printing: bool,
}

/// The mathematical value of a [`CardQuery`].
pub struct CardQueryView {
    pub exact_name: Seq<char>,
    pub include_digital: bool,
    pub priced_only: bool,
    pub cheapest_first: bool,
    pub include_extras: bool,
    pub include_variations: bool,
    pub one_per_printing: bool,
}

impl View for CardQuery {
    type V = CardQueryView;

    open spec fn view(&self) -> CardQueryView {
        CardQueryView {
            exact_name: self.exact_name@,
            include_digital: self.include_digital,
            priced_only: self.priced_only,
            cheapest_first: self.cheapest_first,
            include_extras: self.include_extras,
            include_variations: self.include_variations,
            one_per_printing: self.one_per_printing,
        }
    }
}

/// The query for the cheapest printing of the card `name`: that name
/// exactly, no digital printing, a price above zero, cheapest first, each
/// printing once, neither extras nor variations.
pub open spec fn cheapest_printing(name: Seq<char>) -> CardQueryView {
    CardQueryView {
        exact_name: name,
        include_digital: false,
        priced_only: true,
        cheapest_first: true,
        include_extras: false,
        include_variations: false,
        one_per_printing: true,
    }
}

/// The query for the cheapest printing of the card `card_name`.
pub fn cheapest_printing_query(card_name: &str) -> (query: CardQuery)
    ensures
        query@ == cheapest_printing(card_name@),
{
    CardQuery {
        exact_name: card_name.to_owned(),
        include_digital: false,
        priced_only: true,
        cheapest_first: true,
        include_extras: false,
        include_variations: false,
        one_per_printing: true,
    }
}

/// A printing as the price source describes it: what it is called there,
/// and its price in dollars as text, if it has one.
#[derive(Debug)]
pub struct Printing {
    pub id: String,
    pub usd: Option<String>,
}

/// How a lookup ended.
#[derive(Debug)]
pub enum Lookup {
    /// The first printing that the source returned.
    Found(Printing),
    /// The source returned no printing.
    Empty,
    /// The source could not be asked or did not answer; the text says why.
    Failed(String),
}

/// The mathematical value of a [`Lookup`].
pub enum LookupView {
    Found { id: Seq<char>, usd: Option<Seq<char>> },
    Empty,
    Failed(Seq<char>),
}

impl View for Lookup {
    type V = LookupView;

    open spec fn view(&self) -> LookupView {
        match self {
            Lookup::Found(printing) => LookupView::Found {
                id: printing.id@,
                usd: match printing.usd {
                    Some(text) => Some(text@),
                    None => None,
                },
            },
            Lookup::Empty => LookupView::Empty,
            Lookup::Failed(message) => LookupView::Failed(message@),
        }
    }
}

/// What an error of the price source means as the outcome of a lookup.
/// The source answers a search that matches no printing with its status
/// 404: that is a lookup without a printing. Every other error is a failed
/// lookup, with the source's own words.
pub open spec fn outcome_of_error(status: Option<u16>, message: Seq<char>) -> LookupView {
    if status == Some(404u16) {
        LookupView::Empty
    } else {
        LookupView::Failed(message)
    }
}

/// The outcome of a lookup that ended in an error of the price source,
/// given the status that came with the error, if one did, and the error in
/// the source's words.
pub fn lookup_of_error(status: Option<u16>, message: String) -> (lookup: Lookup)
    ensures
        lookup@ == outcome_of_error(status, message@),
{
    match status {
        Some(404) => Lookup::Empty,
        _ => Lookup::Failed(message),
    }
}

/// An entry with the printing it was resolved to and the price of one copy
/// in cents. The price is above zero.
#[derive(Debug)]
pub struct ResolvedCard {
    entry: Entry,
    unit_price_cents: u32,
    printing_id: String,
}

/// The mathematical value of a [`ResolvedCard`].
pub struct ResolvedCardView {
    pub entry: EntryView,
    pub unit_price_cents: nat,
    pub printing_id: Seq<char>,
}

impl View for ResolvedCard {
    type V = ResolvedCardView;

    closed spec fn view(&self) -> ResolvedCardView {
        ResolvedCardView {
            entry: self.entry@,
            unit_price_cents: self.unit_price_cents as nat,
            printing_id: self.printing_id@,
        }
    }
}

impl DeepView for ResolvedCard {
    type V = ResolvedCardView;

    open spec fn deep_view(&self) -> ResolvedCardView {
        self@
    }
}

/// Why an entry has no price.
#[derive(Debug)]
pub enum FailureKind {
    /// The source has no printing on paper with a price for the card.
    NoPriceFound,
    /// The lookup itself failed; the text is the source's own.
    ExternalSourceError(String),
}

/// The mathematical value of a [`FailureKind`].
pub enum FailureKindView {
    NoPriceFound,
    ExternalSourceError(Seq<char>),
}

impl View for FailureKind {
    type V = FailureKindView;

    open spec fn view(&self) -> FailureKindView {
        match self {
            FailureKind::NoPriceFound => FailureKindView::NoPriceFound,
            FailureKind::ExternalSourceError(message) => FailureKindView::ExternalSourceError(
                message@,
            ),
        }
    }
}

/// An entry that could not be resolved, and why.
#[derive(Debug)]
pub struct ResolutionFailure {
    pub entry: Entry,
    pub kind: FailureKind,
}

/// The mathematical value of a [`ResolutionFailure`].
pub struct ResolutionFailureView {
    pub entry: EntryView,
    pub kind: FailureKindView,
}

impl View for ResolutionFailure {
    type V = ResolutionFailureView;

    open spec fn view(&self) -> ResolutionFailureView {
        ResolutionFailureView { entry: self.entry@, kind: self.kind@ }
    }
}

impl DeepView for ResolutionFailure {
    type V = ResolutionFailureView;

    open spec fn deep_view(&self) -> ResolutionFailureView {
        self@
    }
}

/// The price in cents that makes a printing eligible: a price text that
/// writes more than zero and at most `u32::MAX` cents.
pub open spec fn eligible_price(usd: Option<Seq<char>>) -> Option<u32> {
    match usd {
        Some(text) => match price_u32(text) {
            Some(cents) => if cents > 0 {
                Some(cents)
            } else {
                None
            },
            None => None,
        },
        None => None,
    }
}

/// What a lookup means for an entry. A printing with an eligible price
/// resolves the entry at that price. A printing without one, or no printing,
/// leaves the entry without a price. A failed lookup fails the entry with
/// the source's own words.
pub open spec fn resolution(entry: EntryView, lookup: LookupView) -> Result<
    ResolvedCardView,
    ResolutionFailureView,
> {
    match lookup {
        LookupView::Found { id, usd } => match eligible_price(usd) {
            Some(cents) => Ok(
                ResolvedCardView { entry, unit_price_cents: cents as nat, printing_id: id },
            ),
            None => Err(ResolutionFailureView { entry, kind: FailureKindView::NoPriceFound }),
        },
        LookupView::Empty => Err(
            ResolutionFailureView { entry, kind: FailureKindView::NoPriceFound },
        ),
        LookupView::Failed(message) => Err(
            ResolutionFailureView { entry, kind: FailureKindView::ExternalSourceError(message) },
        ),
    }
}

impl ResolvedCard {
    #[verifier::type_invariant]
    spec fn well_formed(self) -> bool {
        self.unit_price_cents > 0
    }

    /// The entry resolved to the printing `printing_id` at
    /// `unit_price_cents` a copy, where that price is above zero.
    pub fn new(entry: Entry, unit_price_cents: u32, printing_id: &str) -> (card: Option<
        ResolvedCard,
    >)
        ensures
            match card {
                Some(c) => unit_price_cents > 0 && c@ == (ResolvedCardView {
                    entry: entry@,
                    unit_price_cents: unit_price_cents as nat,
                    printing_id: printing_id@,
                }),
                None => unit_price_cents == 0,
            },
    {
        if unit_price_cents == 0 {
            None
        } else {
            Some(ResolvedCard { entry, unit_price_cents, printing_id: printing_id.to_owned() })
        }
    }

    /// The entry that was resolved.
    pub fn entry(&self) -> (entry: &Entry)
        ensures
            entry@ == self@.entry,
    {
        &self.entry
    }

    /// The price of one copy, in cents.
    pub fn unit_price_cents(&self) -> (cents: u32)
        ensures
            cents == self@.unit_price_cents,
            cents > 0,
    {
        proof {
            use_type_invariant(self);
        }
        self.unit_price_cents
    }

    /// What the price source calls the printing.
    pub fn printing_id(&self) -> (id: &str)
        ensures
            id@ == self@.printing_id,
    {
        self.printing_id.as_str()
    }

    /// The price of all copies of the entry, in cents.
    pub fn line_total_cents(&self) -> (cents: u64)
        ensures
            cents == self@.entry.quantity * self@.unit_price_cents,
    {
        let quantity: u64 = self.entry.quantity() as u64;
        let price: u64 = self.unit_price_cents as u64;
        assert(quantity * price <= 0xffff_ffff * 0xffff_ffff) by (nonlinear_arith)
            requires
                quantity <= 0xffff_ffff,
                price <= 0xffff_ffff,
        ;
        quantity * price
    }
}

impl ResolutionFailure {
    /// The failure in words: `no price found for` and the card's name, or
    /// what the source said.
    pub fn reason(&self) -> (reason: String)
        ensures
            reason@ == match self@.kind {
                FailureKindView::NoPriceFound => "no price found for "@ + self@.entry.name,
                FailureKindView::ExternalSourceError(message) => message,
            },
    {
        match &self.kind {
            FailureKind::NoPriceFound => "no price found for ".to_owned().concat(
                self.entry.card_name(),
            ),
            FailureKind::ExternalSourceError(message) => message.clone(),
        }
    }
}

/// Decides what a lookup means for `entry`: the resolved card, or the
/// failure to be kept for the report.
pub fn resolve(entry: Entry, lookup: Lookup) -> (result: Result<ResolvedCard, ResolutionFailure>)
    ensures
        match result {
            Ok(card) => resolution(entry@, lookup@) == Ok::<
                ResolvedCardView,
                ResolutionFailureView,
            >(card@),
            Err(failure) => resolution(entry@, lookup@) == Err::<
                ResolvedCardView,
                ResolutionFailureView,
            >(failure@),
        },
{
    match lookup {
        Lookup::Found(printing) => {
            let price: Option<u32> = match &printing.usd {
                Some(text) => parse_price(text.as_str()),
                None => None,
            };
            match price {
                Some(cents) => {
                    if cents > 0 {
                        Ok(
                            ResolvedCard {
                                entry,
                                unit_price_cents: cents,
                                printing_id: printing.id,
                            },
                        )
                    } else {
                        Err(ResolutionFailure { entry, kind: FailureKind::NoPriceFound })
                    }
                },
                None => Err(ResolutionFailure { entry, kind: FailureKind::NoPriceFound }),
            }
        },
        Lookup::Empty => Err(ResolutionFailure { entry, kind: FailureKind::NoPriceFound }),
        Lookup::Failed(message) => Err(
            ResolutionFailure { entry, kind: FailureKind::ExternalSourceError(message) },
        ),
    }
}

} // verus!
