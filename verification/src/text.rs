//! Rendering of the user-visible text: the card URL that serves as the
//! duplicate-detection key, the report lines, and the no-cards notice.

use vstd::prelude::*;
use vstd::string::*;

use crate::deck::Card;
use crate::digits::{
    dec_digits, is_digit_char, lemma_dec_digits_injective, lemma_dec_digits_shape, u64_to_dec,
};

verus! {

/// The URL under which a card is shown, derived from its id and season.
/// This string is the duplicate-detection key: two cards map to the same URL
/// exactly when they agree on id and season.
pub open spec fn spec_card_url(c: Card) -> Seq<char> {
    "https://www.nationstates.net/page=deck/card="@ + dec_digits(
        c.id as int,
    ) + "/season="@ + dec_digits(c.season as int)
}

/// One line of the duplicate report: the card URL, a separator, and the count.
pub open spec fn spec_report_line(c: Card, count: int) -> Seq<char> {
    spec_card_url(c) + ": "@ + dec_digits(count)
}

/// The notice shown when the queried deck holds no cards at all.
pub open spec fn spec_no_cards_message(target: Seq<char>) -> Seq<char> {
    "No cards found for "@ + target
}

/// Builds the URL under which `c` is shown.
pub fn card_url(c: &Card) -> (r: String)
    ensures
        r@ == spec_card_url(*c),
{
    let mut s = String::from_str("https://www.nationstates.net/page=deck/card=");
    let id = u64_to_dec(c.id as u64);
    s.append(id.as_str());
    s.append("/season=");
    let season = u64_to_dec(c.season as u64);
    s.append(season.as_str());
    s
}

/// Builds one report line for a card held `count` times.
pub fn report_line(c: &Card, count: usize) -> (r: String)
    ensures
        r@ == spec_report_line(*c, count as int),
{
    let mut s = card_url(c);
    s.append(": ");
    let n = u64_to_dec(count as u64);
    s.append(n.as_str());
    s
}

/// The card URL is a faithful duplicate-detection key: two cards map to the
/// same URL exactly when they agree on id and season.
pub proof fn lemma_card_url_injective(a: Card, b: Card)
    requires
        spec_card_url(a) == spec_card_url(b),
    ensures
        a == b,
{
    reveal_strlit("https://www.nationstates.net/page=deck/card=");
    reveal_strlit("/season=");
    let pre = "https://www.nationstates.net/page=deck/card="@;
    let sep = "/season="@;
    let d1 = dec_digits(a.id as int);
    let d2 = dec_digits(a.season as int);
    let e1 = dec_digits(b.id as int);
    let e2 = dec_digits(b.season as int);
    lemma_dec_digits_shape(a.id as int);
    lemma_dec_digits_shape(a.season as int);
    lemma_dec_digits_shape(b.id as int);
    lemma_dec_digits_shape(b.season as int);
    let u = spec_card_url(a);
    let v = spec_card_url(b);
    let pl = pre.len() as int;
    // the id numerals have the same length: past the shorter one, one URL
    // shows the separator's slash where the other still shows a digit
    if d1.len() < e1.len() {
        assert(u[pl + d1.len()] == sep[0]);
        assert(v[pl + d1.len()] == e1[d1.len() as int]);
        assert(is_digit_char(e1[d1.len() as int]));
        assert(false);
    }
    if e1.len() < d1.len() {
        assert(v[pl + e1.len()] == sep[0]);
        assert(u[pl + e1.len()] == d1[e1.len() as int]);
        assert(is_digit_char(d1[e1.len() as int]));
        assert(false);
    }
    assert forall|k: int| 0 <= k < d1.len() implies d1[k] == e1[k] by {
        assert(u[pl + k] == d1[k]);
        assert(v[pl + k] == e1[k]);
    }
    assert(d1 =~= e1);
    lemma_dec_digits_injective(a.id as int, b.id as int);
    assert(u.len() == v.len());
    assert(d2.len() == e2.len());
    let off = pl + d1.len() + sep.len();
    assert forall|k: int| 0 <= k < d2.len() implies d2[k] == e2[k] by {
        assert(u[off + k] == d2[k]);
        assert(v[off + k] == e2[k]);
    }
    assert(d2 =~= e2);
    lemma_dec_digits_injective(a.season as int, b.season as int);
}

/// The query URL asking the API for a target's card deck.
pub open spec fn spec_api_url(target: Seq<char>) -> Seq<char> {
    "https://www.nationstates.net/cgi-bin/api.cgi?q=cards+deck;nationname="@ + target
}

/// The identification header value the API's usage policy asks for, naming
/// the identity on whose behalf the tool runs.
pub open spec fn spec_user_agent(identity: Seq<char>) -> Seq<char> {
    "UPC's dupecheck, used by "@ + identity
}

/// Builds the deck query URL for `target`.  The target is substituted
/// verbatim; no percent-encoding is applied.
pub fn api_url(target: &str) -> (r: String)
    ensures
        r@ == spec_api_url(target@),
{
    let mut s = String::from_str("https://www.nationstates.net/cgi-bin/api.cgi?q=cards+deck;nationname=");
    s.append(target);
    s
}

/// Builds the identification header value for `identity`.
pub fn user_agent(identity: &str) -> (r: String)
    ensures
        r@ == spec_user_agent(identity@),
{
    let mut s = String::from_str("UPC's dupecheck, used by ");
    s.append(identity);
    s
}

/// Builds the notice for a deck without cards.
pub fn no_cards_message(target: &str) -> (r: String)
    ensures
        r@ == spec_no_cards_message(target@),
{
    let mut s = String::from_str("No cards found for ");
    s.append(target);
    s
}

} // verus!
