use dupecheck::deck::Card;
use dupecheck::report::{build_report, filter_duplicates, report_lines, sort_rows};
use dupecheck::tally::count_occurrences;
use dupecheck::text::{api_url, card_url, no_cards_message, report_line, user_agent};
use dupecheck::RunOutcome;

fn card(id: u32, season: u8) -> Card {
    Card { id, season }
}

#[test]
fn card_url_has_the_documented_shape() {
    assert_eq!(
        card_url(&card(1528716, 1)),
        "https://www.nationstates.net/page=deck/card=1528716/season=1"
    );
    assert_eq!(
        card_url(&card(0, 0)),
        "https://www.nationstates.net/page=deck/card=0/season=0"
    );
}

#[test]
fn report_line_joins_url_and_count() {
    assert_eq!(
        report_line(&card(3, 1), 3),
        "https://www.nationstates.net/page=deck/card=3/season=1: 3"
    );
}

#[test]
fn report_line_renders_multi_digit_counts() {
    assert_eq!(
        report_line(&card(12, 0), 120),
        "https://www.nationstates.net/page=deck/card=12/season=0: 120"
    );
}

#[test]
fn no_cards_message_names_the_target() {
    assert_eq!(no_cards_message("testlandia"), "No cards found for testlandia");
}

#[test]
fn api_url_embeds_the_target() {
    assert_eq!(
        api_url("testlandia"),
        "https://www.nationstates.net/cgi-bin/api.cgi?q=cards+deck;nationname=testlandia"
    );
}

#[test]
fn user_agent_embeds_the_identity() {
    assert_eq!(user_agent("someone"), "UPC's dupecheck, used by someone");
}

#[test]
fn counts_sum_to_deck_length_and_cover_every_card() {
    let cards = vec![card(1, 1), card(1, 1), card(2, 1), card(1, 1), card(2, 2)];
    let table = count_occurrences(&cards);
    assert_eq!(table.len(), 3);
    let total: usize = table.iter().map(|p| p.1).sum();
    assert_eq!(total, cards.len());
    assert!(table.contains(&(card(1, 1), 3)));
    assert!(table.contains(&(card(2, 1), 1)));
    assert!(table.contains(&(card(2, 2), 1)));
}

#[test]
fn filter_drops_single_occurrences_and_keeps_order() {
    let table = vec![(card(1, 1), 1), (card(2, 1), 3), (card(3, 1), 1), (card(4, 1), 2)];
    let dupes = filter_duplicates(&table);
    assert_eq!(dupes, vec![(card(2, 1), 3), (card(4, 1), 2)]);
}

#[test]
fn sort_orders_by_descending_count() {
    let rows = vec![(card(1, 1), 2), (card(2, 1), 5), (card(3, 1), 3)];
    let sorted = sort_rows(rows);
    assert_eq!(sorted, vec![(card(2, 1), 5), (card(3, 1), 3), (card(1, 1), 2)]);
}

#[test]
fn sort_breaks_count_ties_by_card_id_then_season() {
    let rows = vec![(card(9, 1), 2), (card(2, 3), 2), (card(2, 1), 2)];
    let sorted = sort_rows(rows);
    assert_eq!(sorted, vec![(card(2, 1), 2), (card(2, 3), 2), (card(9, 1), 2)]);
}

#[test]
fn duplicates_present_yields_sorted_report() {
    let deck = vec![
        card(1, 1),
        card(1, 1),
        card(2, 1),
        card(3, 1),
        card(3, 1),
        card(3, 1),
    ];
    let rows = build_report(&deck);
    assert_eq!(rows, vec![(card(3, 1), 3), (card(1, 1), 2)]);
    let lines = report_lines(&rows);
    assert_eq!(
        lines,
        vec![
            "https://www.nationstates.net/page=deck/card=3/season=1: 3".to_string(),
            "https://www.nationstates.net/page=deck/card=1/season=1: 2".to_string(),
        ]
    );
}

#[test]
fn no_duplicates_yields_empty_report() {
    let deck = vec![card(1, 1), card(2, 1)];
    let rows = build_report(&deck);
    assert_eq!(rows, vec![]);
    assert_eq!(report_lines(&rows).len(), 0);
}

#[test]
fn same_id_in_different_seasons_is_no_duplicate() {
    let deck = vec![card(1, 1), card(1, 2)];
    let rows = build_report(&deck);
    assert_eq!(rows, vec![]);
}

#[test]
fn run_reports_duplicates_from_a_response_body() {
    let body = "<CARDS><DECK>\
        <CARD><CARDID>5</CARDID><SEASON>1</SEASON></CARD>\
        <CARD><CARDID>5</CARDID><SEASON>1</SEASON></CARD>\
        <CARD><CARDID>6</CARDID><SEASON>1</SEASON></CARD>\
        </DECK></CARDS>";
    match dupecheck::run(Ok(body.as_bytes().to_vec()), "testlandia") {
        RunOutcome::Report { rows, lines } => {
            assert_eq!(rows, vec![(card(5, 1), 2)]);
            assert_eq!(
                lines,
                vec!["https://www.nationstates.net/page=deck/card=5/season=1: 2".to_string()]
            );
        }
        other => panic!("expected a report, got {:?}", other),
    }
}

#[test]
fn run_handles_a_realistic_response_with_prologue_and_categories() {
    let body = "<?xml version=\"1.0\" encoding=\"UTF-8\"?>\n<CARDS>\n<DECK>\n\
        <CARD>\n<CARDID>410</CARDID>\n<CATEGORY>legendary</CATEGORY>\n<SEASON>1</SEASON>\n</CARD>\n\
        <CARD>\n<CARDID>410</CARDID>\n<CATEGORY>legendary</CATEGORY>\n<SEASON>1</SEASON>\n</CARD>\n\
        </DECK>\n</CARDS>\n";
    match dupecheck::run(Ok(body.as_bytes().to_vec()), "testlandia") {
        RunOutcome::Report { rows, lines } => {
            assert_eq!(rows, vec![(card(410, 1), 2)]);
            assert_eq!(
                lines,
                vec!["https://www.nationstates.net/page=deck/card=410/season=1: 2".to_string()]
            );
        }
        other => panic!("expected a report, got {:?}", other),
    }
}

#[test]
fn run_routes_empty_deck_to_the_no_cards_notice() {
    let body = "\n            <CARDS>\n            <DECK/>\n            </CARDS>\n            ";
    match dupecheck::run(Ok(body.as_bytes().to_vec()), "testlandia") {
        RunOutcome::NoCards { message } => {
            assert_eq!(message, "No cards found for testlandia");
        }
        other => panic!("expected the no-cards notice, got {:?}", other),
    }
}

#[test]
fn run_reports_a_transport_failure_verbatim() {
    match dupecheck::run(Err("connection refused".to_string()), "testlandia") {
        RunOutcome::TransportFailed { diagnostic } => {
            assert_eq!(diagnostic, "connection refused");
        }
        other => panic!("expected a transport failure, got {:?}", other),
    }
}

#[test]
fn run_reports_a_malformed_body_as_a_parse_failure() {
    match dupecheck::run(Ok(b"<html>error page</html>".to_vec()), "testlandia") {
        RunOutcome::ParseFailed { diagnostic } => {
            assert_eq!(diagnostic, "could not parse the deck response");
        }
        other => panic!("expected a parse failure, got {:?}", other),
    }
}
