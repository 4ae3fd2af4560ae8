//! Duplicate-card report for a collectible-card deck fetched from a remote
//! game API.
//!
//! The library holds the verified pipeline: parsing the XML deck response,
//! counting how often each card occurs, filtering to the cards held more than
//! once, sorting the report, and rendering the output lines.  Network I/O and
//! argument handling live outside the library.

pub mod deck;
pub mod digits;
pub mod render;
pub mod report;
pub mod tally;
pub mod text;
pub mod xml;

use vstd::prelude::*;

use crate::deck::Card;
use crate::report::{build_report, report_lines};
use crate::tally::occ;
use crate::text::{no_cards_message, spec_no_cards_message, spec_report_line};
use crate::xml::{parse_cards, spec_doc};

verus! {

/// What one run of the pipeline decides, given the outcome of the fetch and
/// the target the deck was requested for.
#[derive(Debug)]
pub enum RunOutcome {
    /// The fetch itself failed; its diagnostic is passed through.
    TransportFailed { diagnostic: String },
    /// The response body did not match the deck schema.
    ParseFailed { diagnostic: String },
    /// The deck holds no cards at all; the notice names the target.
    NoCards { message: String },
    /// The duplicate report: its rows and their rendered lines.
    Report { rows: Vec<(Card, usize)>, lines: Vec<String> },
}

/// Decides a whole run: a transport failure is reported as such, a malformed
/// body as a parse failure, a deck without cards with the no-cards notice,
/// and otherwise the duplicate report is built, sorted, and rendered.
pub fn run(fetch: Result<Vec<u8>, String>, target: &str) -> (r: RunOutcome)
    ensures
        match fetch {
            Err(e) => r matches RunOutcome::TransportFailed { diagnostic } && diagnostic@ == e@,
            Ok(body) => match spec_doc(body@) {
                None => r matches RunOutcome::ParseFailed { diagnostic } && diagnostic@
                    == "could not parse the deck response"@,
                Some(None) => r matches RunOutcome::NoCards { message } && message@
                    == spec_no_cards_message(target@),
                Some(Some(cards)) => r matches RunOutcome::Report { rows, lines }
                    && crate::report::sorted_rows(rows@) && crate::tally::distinct_keys(rows@) && (
                forall|p: (Card, usize)| #[trigger]
                    rows@.contains(p) <==> occ(cards, p.0) == p.1 && p.1 >= 2) && lines@.len()
                    == rows@.len() && (forall|i: int|
                    0 <= i < rows@.len() ==> (#[trigger] lines@[i])@ == spec_report_line(
                        rows@[i].0,
                        rows@[i].1 as int,
                    )),
            },
        },
{
    match fetch {
        Ok(body) => match parse_cards(&body) {
            Ok(c) => match c.deck.cards {
                Some(cardvec) => {
                    let rows = build_report(&cardvec);
                    let lines = report_lines(&rows);
                    RunOutcome::Report { rows, lines }
                },
                None => RunOutcome::NoCards { message: no_cards_message(target) },
            },
            Err(e) => RunOutcome::ParseFailed { diagnostic: e.message() },
        },
        Err(e) => RunOutcome::TransportFailed { diagnostic: e },
    }
}

} // verus!
