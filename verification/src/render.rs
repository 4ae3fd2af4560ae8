//! A canonical rendering of a deck document, and the proof that parsing it
//! returns exactly the deck: for any sequence of cards, the grammar accepts
//! the rendered document and yields the cards in document order.

use vstd::prelude::*;

use crate::deck::Card;
use crate::xml::{
    spec_all_digits, spec_card_fields, spec_content_end, spec_deck_cards, spec_digits_val,
    spec_is_digit, spec_is_ws, spec_num, spec_skip_ws, DIGIT0, GT, LT, SLASH,
    UC_A, UC_C, UC_D, UC_E, UC_I, UC_K, UC_N, UC_O, UC_R, UC_S,
};

verus! {

/// The decimal numeral of `n` as bytes, most significant digit first.
pub open spec fn dec_bytes(n: int) -> Seq<u8>
    decreases n,
{
    if n < 10 {
        seq![(DIGIT0 + n) as u8]
    } else {
        dec_bytes(n / 10).push((DIGIT0 + n % 10) as u8)
    }
}

pub open spec fn bs_open_cards() -> Seq<u8> {
    seq![LT, UC_C, UC_A, UC_R, UC_D, UC_S, GT]
}

pub open spec fn bs_close_cards() -> Seq<u8> {
    seq![LT, SLASH, UC_C, UC_A, UC_R, UC_D, UC_S, GT]
}

pub open spec fn bs_open_deck() -> Seq<u8> {
    seq![LT, UC_D, UC_E, UC_C, UC_K, GT]
}

pub open spec fn bs_close_deck() -> Seq<u8> {
    seq![LT, SLASH, UC_D, UC_E, UC_C, UC_K, GT]
}

pub open spec fn bs_open_card() -> Seq<u8> {
    seq![LT, UC_C, UC_A, UC_R, UC_D, GT]
}

pub open spec fn bs_close_card() -> Seq<u8> {
    seq![LT, SLASH, UC_C, UC_A, UC_R, UC_D, GT]
}

pub open spec fn bs_open_cardid() -> Seq<u8> {
    seq![LT, UC_C, UC_A, UC_R, UC_D, UC_I, UC_D, GT]
}

pub open spec fn bs_close_cardid() -> Seq<u8> {
    seq![LT, SLASH, UC_C, UC_A, UC_R, UC_D, UC_I, UC_D, GT]
}

pub open spec fn bs_open_season() -> Seq<u8> {
    seq![LT, UC_S, UC_E, UC_A, UC_S, UC_O, UC_N, GT]
}

pub open spec fn bs_close_season() -> Seq<u8> {
    seq![LT, SLASH, UC_S, UC_E, UC_A, UC_S, UC_O, UC_N, GT]
}

/// The tail of a rendered card from its `<SEASON>` element on: the season
/// numeral and the card's closing tag.
pub open spec fn season_fields_bytes(c: Card) -> Seq<u8> {
    bs_open_season() + dec_bytes(c.season as int) + bs_close_season() + bs_close_card()
}

/// The body of a rendered card element, after its `<CARD>` tag: its id, its
/// season, and the closing tag.
pub open spec fn card_fields_bytes(c: Card) -> Seq<u8> {
    bs_open_cardid() + dec_bytes(c.id as int) + bs_close_cardid() + season_fields_bytes(c)
}

/// One rendered card element.
pub open spec fn render_card(c: Card) -> Seq<u8> {
    bs_open_card() + card_fields_bytes(c)
}

/// The rendered card elements of a deck, in order.
pub open spec fn render_cards(cs: Seq<Card>) -> Seq<u8>
    decreases cs.len(),
{
    if cs.len() == 0 {
        Seq::empty()
    } else {
        render_card(cs.first()) + render_cards(cs.drop_first())
    }
}

/// A whole rendered deck document, without whitespace or prologue.
pub open spec fn render_doc(cs: Seq<Card>) -> Seq<u8> {
    bs_open_cards() + bs_open_deck() + render_cards(cs) + bs_close_deck() + bs_close_cards()
}

proof fn lemma_dec_bytes_digits(n: int)
    requires
        0 <= n,
    ensures
        dec_bytes(n).len() >= 1,
        forall|k: int| 0 <= k < dec_bytes(n).len() ==> spec_is_digit(#[trigger] dec_bytes(n)[k]),
    decreases n,
{
    if n >= 10 {
        lemma_dec_bytes_digits(n / 10);
    }
}

/// Scanning for `<` runs to the end of a `<`-free stretch.
proof fn lemma_content_end_run(s: Seq<u8>, i: int, j: int)
    requires
        0 <= i <= j < s.len(),
        forall|k: int| i <= k < j ==> (#[trigger] s[k]) != LT,
        s[j] == LT,
    ensures
        spec_content_end(s, i) == j,
    decreases j - i,
{
    if i < j {
        lemma_content_end_run(s, i + 1, j);
    }
}

/// A byte of a stretch known through a subrange equation.
proof fn lemma_subrange_index(s: Seq<u8>, i: int, t: Seq<u8>, k: int)
    requires
        0 <= i,
        i + t.len() <= s.len(),
        s.subrange(i, i + t.len()) == t,
        0 <= k < t.len(),
    ensures
        s[i + k] == t[k],
{
    assert(s.subrange(i, i + t.len())[k] == t[k]);
}

/// The value read back from a rendered numeral is the number itself.
proof fn lemma_digits_val_of_dec_bytes(s: Seq<u8>, i: int, n: int)
    requires
        0 <= n,
        0 <= i,
        i + dec_bytes(n).len() <= s.len(),
        s.subrange(i, i + dec_bytes(n).len()) == dec_bytes(n),
    ensures
        spec_digits_val(s, i, i + dec_bytes(n).len()) == n,
        spec_all_digits(s, i, i + dec_bytes(n).len()),
    decreases n,
{
    let d = dec_bytes(n);
    assert forall|k: int| 0 <= k < d.len() implies s[i + k] == d[k] by {
        lemma_subrange_index(s, i, d, k);
    }
    lemma_dec_bytes_digits(n);
    assert forall|k: int| i <= k < i + d.len() implies spec_is_digit(#[trigger] s[k]) by {
        assert(s[i + (k - i)] == d[k - i]);
    }
    if n < 10 {
        assert(s[i + 0] == d[0]);
        assert(spec_digits_val(s, i, i) == 0);
        assert(spec_digits_val(s, i, i + 1) == s[i] as int - DIGIT0 as int);
        assert(spec_digits_val(s, i, i + 1) == n);
    } else {
        let p = dec_bytes(n / 10);
        assert(d == p.push((DIGIT0 + n % 10) as u8));
        assert forall|k: int| 0 <= k < p.len() implies s.subrange(i, i + p.len())[k] == p[k] by {
            assert(s[i + k] == d[k]);
            assert(d[k] == p[k]);
        }
        assert(s.subrange(i, i + p.len()) =~= p);
        lemma_digits_val_of_dec_bytes(s, i, n / 10);
        assert(s[i + (d.len() - 1)] == d[d.len() - 1]);
        assert(d[d.len() - 1] == (DIGIT0 + n % 10) as u8);
        assert(spec_digits_val(s, i, i + d.len()) == spec_digits_val(s, i, i + d.len() - 1) * 10 + (
        s[i + d.len() - 1] as int - DIGIT0 as int));
        assert(spec_digits_val(s, i, i + d.len()) == (n / 10) * 10 + n % 10);
    }
}

/// A stretch of a stretch known through a subrange equation.
proof fn lemma_extract(s: Seq<u8>, i: int, t: Seq<u8>, off: int, u: Seq<u8>)
    requires
        0 <= i,
        i + t.len() <= s.len(),
        s.subrange(i, i + t.len()) == t,
        0 <= off,
        off + u.len() <= t.len(),
        t.subrange(off, off + u.len()) == u,
    ensures
        s.subrange(i + off, i + off + u.len()) == u,
{
    assert forall|k: int| 0 <= k < u.len() implies s.subrange(i + off, i + off + u.len())[k]
        == u[k] by {
        lemma_subrange_index(s, i, t, off + k);
        assert(t.subrange(off, off + u.len())[k] == u[k]);
    }
    assert(s.subrange(i + off, i + off + u.len()) =~= u);
}

proof fn lemma_tag_open_cards(s: Seq<u8>, i: int)
    requires
        0 <= i,
        i + 7 <= s.len(),
        s.subrange(i, i + 7) == bs_open_cards(),
    ensures
        crate::xml::spec_open_cards(s, i),
{
    assert forall|k: int| 0 <= k < 7 implies s[i + k] == bs_open_cards()[k] by {
        lemma_subrange_index(s, i, bs_open_cards(), k);
    }
    assert(s[i + 0] == LT && s[i + 1] == UC_C && s[i + 2] == UC_A && s[i + 3] == UC_R && s[i + 4]
        == UC_D && s[i + 5] == UC_S && s[i + 6] == GT);
}

proof fn lemma_tag_close_cards(s: Seq<u8>, i: int)
    requires
        0 <= i,
        i + 8 <= s.len(),
        s.subrange(i, i + 8) == bs_close_cards(),
    ensures
        crate::xml::spec_close_cards(s, i),
{
    assert forall|k: int| 0 <= k < 8 implies s[i + k] == bs_close_cards()[k] by {
        lemma_subrange_index(s, i, bs_close_cards(), k);
    }
    assert(s[i + 0] == LT && s[i + 1] == SLASH && s[i + 2] == UC_C && s[i + 3] == UC_A && s[i + 4]
        == UC_R && s[i + 5] == UC_D && s[i + 6] == UC_S && s[i + 7] == GT);
}

proof fn lemma_tag_open_deck(s: Seq<u8>, i: int)
    requires
        0 <= i,
        i + 6 <= s.len(),
        s.subrange(i, i + 6) == bs_open_deck(),
    ensures
        crate::xml::spec_open_deck(s, i),
        !crate::xml::spec_empty_deck(s, i),
{
    assert forall|k: int| 0 <= k < 6 implies s[i + k] == bs_open_deck()[k] by {
        lemma_subrange_index(s, i, bs_open_deck(), k);
    }
    assert(s[i + 0] == LT && s[i + 1] == UC_D && s[i + 2] == UC_E && s[i + 3] == UC_C && s[i + 4]
        == UC_K && s[i + 5] == GT);
}

proof fn lemma_tag_close_deck(s: Seq<u8>, i: int)
    requires
        0 <= i,
        i + 7 <= s.len(),
        s.subrange(i, i + 7) == bs_close_deck(),
    ensures
        crate::xml::spec_close_deck(s, i),
{
    assert forall|k: int| 0 <= k < 7 implies s[i + k] == bs_close_deck()[k] by {
        lemma_subrange_index(s, i, bs_close_deck(), k);
    }
    assert(s[i + 0] == LT && s[i + 1] == SLASH && s[i + 2] == UC_D && s[i + 3] == UC_E && s[i + 4]
        == UC_C && s[i + 5] == UC_K && s[i + 6] == GT);
}

proof fn lemma_tag_open_card(s: Seq<u8>, i: int)
    requires
        0 <= i,
        i + 6 <= s.len(),
        s.subrange(i, i + 6) == bs_open_card(),
    ensures
        crate::xml::spec_open_card(s, i),
        !crate::xml::spec_close_deck(s, i),
{
    assert forall|k: int| 0 <= k < 6 implies s[i + k] == bs_open_card()[k] by {
        lemma_subrange_index(s, i, bs_open_card(), k);
    }
    assert(s[i + 0] == LT && s[i + 1] == UC_C && s[i + 2] == UC_A && s[i + 3] == UC_R && s[i + 4]
        == UC_D && s[i + 5] == GT);
}

proof fn lemma_tag_close_card(s: Seq<u8>, i: int)
    requires
        0 <= i,
        i + 7 <= s.len(),
        s.subrange(i, i + 7) == bs_close_card(),
    ensures
        crate::xml::spec_close_card(s, i),
        !spec_is_ws(s[i]),
{
    assert forall|k: int| 0 <= k < 7 implies s[i + k] == bs_close_card()[k] by {
        lemma_subrange_index(s, i, bs_close_card(), k);
    }
    assert(s[i + 0] == LT && s[i + 1] == SLASH && s[i + 2] == UC_C && s[i + 3] == UC_A && s[i + 4]
        == UC_R && s[i + 5] == UC_D && s[i + 6] == GT);
}

proof fn lemma_tag_open_cardid(s: Seq<u8>, i: int)
    requires
        0 <= i,
        i + 8 <= s.len(),
        s.subrange(i, i + 8) == bs_open_cardid(),
    ensures
        crate::xml::spec_open_cardid(s, i),
        !crate::xml::spec_close_card(s, i),
        !spec_is_ws(s[i]),
{
    assert forall|k: int| 0 <= k < 8 implies s[i + k] == bs_open_cardid()[k] by {
        lemma_subrange_index(s, i, bs_open_cardid(), k);
    }
    assert(s[i + 0] == LT && s[i + 1] == UC_C && s[i + 2] == UC_A && s[i + 3] == UC_R && s[i + 4]
        == UC_D && s[i + 5] == UC_I && s[i + 6] == UC_D && s[i + 7] == GT);
}

proof fn lemma_tag_close_cardid(s: Seq<u8>, i: int)
    requires
        0 <= i,
        i + 9 <= s.len(),
        s.subrange(i, i + 9) == bs_close_cardid(),
    ensures
        crate::xml::spec_close_cardid(s, i),
        s[i] == LT,
{
    assert forall|k: int| 0 <= k < 9 implies s[i + k] == bs_close_cardid()[k] by {
        lemma_subrange_index(s, i, bs_close_cardid(), k);
    }
    assert(s[i + 0] == LT && s[i + 1] == SLASH && s[i + 2] == UC_C && s[i + 3] == UC_A && s[i + 4]
        == UC_R && s[i + 5] == UC_D && s[i + 6] == UC_I && s[i + 7] == UC_D && s[i + 8] == GT);
}

proof fn lemma_tag_open_season(s: Seq<u8>, i: int)
    requires
        0 <= i,
        i + 8 <= s.len(),
        s.subrange(i, i + 8) == bs_open_season(),
    ensures
        crate::xml::spec_open_season(s, i),
        !crate::xml::spec_close_card(s, i),
        !crate::xml::spec_open_cardid(s, i),
        !spec_is_ws(s[i]),
{
    assert forall|k: int| 0 <= k < 8 implies s[i + k] == bs_open_season()[k] by {
        lemma_subrange_index(s, i, bs_open_season(), k);
    }
    assert(s[i + 0] == LT && s[i + 1] == UC_S && s[i + 2] == UC_E && s[i + 3] == UC_A && s[i + 4]
        == UC_S && s[i + 5] == UC_O && s[i + 6] == UC_N && s[i + 7] == GT);
}

proof fn lemma_tag_close_season(s: Seq<u8>, i: int)
    requires
        0 <= i,
        i + 9 <= s.len(),
        s.subrange(i, i + 9) == bs_close_season(),
    ensures
        crate::xml::spec_close_season(s, i),
        s[i] == LT,
{
    assert forall|k: int| 0 <= k < 9 implies s[i + k] == bs_close_season()[k] by {
        lemma_subrange_index(s, i, bs_close_season(), k);
    }
    assert(s[i + 0] == LT && s[i + 1] == SLASH && s[i + 2] == UC_S && s[i + 3] == UC_E && s[i + 4]
        == UC_A && s[i + 5] == UC_S && s[i + 6] == UC_O && s[i + 7] == UC_N && s[i + 8] == GT);
}

/// At a rendered closing card tag, the field parser finishes the card.
proof fn lemma_fields_close(s: Seq<u8>, i: int, idv: u32, sv: u8)
    requires
        0 <= i,
        i + 7 <= s.len(),
        s.subrange(i, i + 7) == bs_close_card(),
    ensures
        spec_card_fields(s, i, Some(idv), Some(sv)) == Some((i + 7, Card { id: idv, season: sv })),
{
    lemma_tag_close_card(s, i);
    assert(spec_skip_ws(s, i) == i);
}

/// At a rendered season element, the field parser reads the season and then
/// finishes the card.
proof fn lemma_fields_season(s: Seq<u8>, i: int, c: Card)
    requires
        0 <= i,
        i + season_fields_bytes(c).len() <= s.len(),
        s.subrange(i, i + season_fields_bytes(c).len()) == season_fields_bytes(c),
    ensures
        spec_card_fields(s, i, Some(c.id), None) == Some(
            (i + season_fields_bytes(c).len(), c),
        ),
{
    let t = season_fields_bytes(c);
    let d = dec_bytes(c.season as int);
    let dl: int = d.len() as int;
    lemma_dec_bytes_digits(c.season as int);
    assert(t.len() == 24 + dl);
    assert(t.subrange(0, 8) =~= bs_open_season());
    assert(t.subrange(8, 8 + dl) =~= d);
    assert(t.subrange(8 + dl, 17 + dl) =~= bs_close_season());
    assert(t.subrange(17 + dl, 24 + dl) =~= bs_close_card());
    lemma_extract(s, i, t, 0, bs_open_season());
    lemma_extract(s, i, t, 8, d);
    lemma_extract(s, i, t, 8 + dl, bs_close_season());
    lemma_extract(s, i, t, 17 + dl, bs_close_card());
    lemma_tag_open_season(s, i);
    assert(spec_skip_ws(s, i) == i);
    let c0 = i + 8;
    let c1 = c0 + dl;
    lemma_digits_val_of_dec_bytes(s, c0, c.season as int);
    lemma_tag_close_season(s, c1);
    lemma_content_end_run(s, c0, c1);
    assert(spec_num(s, c0, c1, 255) == Some(c.season as int));
    let np = c1 + 9;
    lemma_fields_close(s, np, c.id, c.season);
    assert((c.season as int) as u8 == c.season);
}

/// At a rendered card body, the field parser reads the id, the season, and
/// the closing tag, and yields the card.
proof fn lemma_fields_id(s: Seq<u8>, i: int, c: Card)
    requires
        0 <= i,
        i + card_fields_bytes(c).len() <= s.len(),
        s.subrange(i, i + card_fields_bytes(c).len()) == card_fields_bytes(c),
    ensures
        spec_card_fields(s, i, None, None) == Some((i + card_fields_bytes(c).len(), c)),
{
    let t = card_fields_bytes(c);
    let d = dec_bytes(c.id as int);
    let dl: int = d.len() as int;
    let sf = season_fields_bytes(c);
    lemma_dec_bytes_digits(c.id as int);
    assert(t.len() == 17 + dl + sf.len());
    assert(t.subrange(0, 8) =~= bs_open_cardid());
    assert(t.subrange(8, 8 + dl) =~= d);
    assert(t.subrange(8 + dl, 17 + dl) =~= bs_close_cardid());
    assert(t.subrange(17 + dl, t.len() as int) =~= sf);
    lemma_extract(s, i, t, 0, bs_open_cardid());
    lemma_extract(s, i, t, 8, d);
    lemma_extract(s, i, t, 8 + dl, bs_close_cardid());
    lemma_extract(s, i, t, 17 + dl, sf);
    lemma_tag_open_cardid(s, i);
    assert(spec_skip_ws(s, i) == i);
    let c0 = i + 8;
    let c1 = c0 + dl;
    lemma_digits_val_of_dec_bytes(s, c0, c.id as int);
    lemma_tag_close_cardid(s, c1);
    lemma_content_end_run(s, c0, c1);
    assert(spec_num(s, c0, c1, 0xffff_ffff) == Some(c.id as int));
    let np = c1 + 9;
    lemma_fields_season(s, np, c);
    assert((c.id as int) as u32 == c.id);
}

/// At a rendered card list followed by the deck's closing tag, the list
/// parser yields exactly those cards, in order.
proof fn lemma_deck_cards_render(s: Seq<u8>, i: int, cs: Seq<Card>)
    requires
        0 <= i,
        i + render_cards(cs).len() + 7 <= s.len(),
        s.subrange(i, i + render_cards(cs).len() + 7) == render_cards(cs) + bs_close_deck(),
    ensures
        spec_deck_cards(s, i) == Some((i + render_cards(cs).len() + 7, cs)),
    decreases cs.len(),
{
    let t = render_cards(cs) + bs_close_deck();
    if cs.len() == 0 {
        assert(render_cards(cs) =~= Seq::<u8>::empty());
        assert(t =~= bs_close_deck());
        lemma_tag_close_deck(s, i);
        lemma_subrange_index(s, i, bs_close_deck(), 0);
        assert(s[i + 0] == LT);
        assert(spec_skip_ws(s, i) == i);
        assert(spec_deck_cards(s, i) == Some((i + 7int, Seq::<Card>::empty())));
        assert(Seq::<Card>::empty() =~= cs);
    } else {
        let first = cs.first();
        let rest = cs.drop_first();
        let fb = card_fields_bytes(first);
        let fl: int = fb.len() as int;
        assert(render_cards(cs) == render_card(first) + render_cards(rest));
        assert(t.subrange(0, 6) =~= bs_open_card());
        assert(t.subrange(6, 6 + fl) =~= fb);
        assert(t.subrange(6 + fl, t.len() as int) =~= render_cards(rest) + bs_close_deck());
        lemma_extract(s, i, t, 0, bs_open_card());
        lemma_extract(s, i, t, 6, fb);
        lemma_extract(s, i, t, 6 + fl, render_cards(rest) + bs_close_deck());
        lemma_tag_open_card(s, i);
        assert(spec_skip_ws(s, i) == i);
        lemma_fields_id(s, i + 6, first);
        let np = i + 6 + fl;
        lemma_deck_cards_render(s, np, rest);
        assert(seq![first] + rest =~= cs);
    }
}

/// Parsing round trip: a rendered document is well formed, and parsing it
/// yields exactly the cards it was rendered from, in document order — the
/// absent card list when there were none.
pub proof fn lemma_render_round_trip(cs: Seq<Card>)
    ensures
        crate::xml::spec_doc(render_doc(cs)) == Some(
            if cs.len() == 0 {
                None
            } else {
                Some(cs)
            },
        ),
{
    let s = render_doc(cs);
    let rc: int = render_cards(cs).len() as int;
    assert(s.len() == 28 + rc);
    assert(s[0] == LT && s[1] == UC_C);
    assert(spec_skip_ws(s, 0) == 0);
    assert(crate::xml::spec_after_prologue(s, 0) == Some(0int));
    assert(s.subrange(0, 7) =~= bs_open_cards());
    lemma_tag_open_cards(s, 0);
    assert(s.subrange(7, 13) =~= bs_open_deck());
    lemma_tag_open_deck(s, 7);
    assert(s[7] == LT);
    assert(spec_skip_ws(s, 7) == 7);
    assert(s.subrange(13, 13 + rc + 7) =~= render_cards(cs) + bs_close_deck());
    lemma_deck_cards_render(s, 13, cs);
    let p: int = 13 + rc + 7;
    assert(s[p] == LT);
    assert(spec_skip_ws(s, p) == p);
    assert(s.subrange(p, p + 8) =~= bs_close_cards());
    lemma_tag_close_cards(s, p);
    assert(spec_skip_ws(s, p + 8) == s.len());
}

} // verus!
