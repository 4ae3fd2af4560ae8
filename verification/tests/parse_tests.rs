use dupecheck::deck::{Card, Cards, Deck};
use dupecheck::xml::parse_cards;

fn parse(body: &str) -> Result<Cards, dupecheck::xml::ParseError> {
    parse_cards(&body.as_bytes().to_vec())
}

#[test]
fn deserialize_deck() {
    let test_xml = r#"
            <CARDS>
            <DECK>
            <CARD>
            <CARDID>2213620</CARDID>
            <CATEGORY>uncommon</CATEGORY>
            <SEASON>1</SEASON>
            </CARD>
            <CARD>
            <CARDID>1723611</CARDID>
            <CATEGORY>common</CATEGORY>
            <SEASON>1</SEASON>
            </CARD>
            <CARD>
            <CARDID>410</CARDID>
            <CATEGORY>legendary</CATEGORY>
            <SEASON>1</SEASON>
            </CARD>
            <CARD>
            <CARDID>57712</CARDID>
            <CATEGORY>legendary</CATEGORY>
            <SEASON>1</SEASON>
            </CARD>
            <CARD>
            <CARDID>1059603</CARDID>
            <CATEGORY>rare</CATEGORY>
            <SEASON>1</SEASON>
            </CARD>
            <CARD>
            <CARDID>1528716</CARDID>
            <CATEGORY>uncommon</CATEGORY>
            <SEASON>1</SEASON>
            </CARD>
            </DECK>
            </CARDS>
            "#;

    let parsed: Cards = parse(test_xml).unwrap();

    let expected = Cards {
        deck: Deck {
            cards: Some(vec![
                Card {
                    id: 2213620,
                    season: 1,
                },
                Card {
                    id: 1723611,
                    season: 1,
                },
                Card { id: 410, season: 1 },
                Card {
                    id: 57712,
                    season: 1,
                },
                Card {
                    id: 1059603,
                    season: 1,
                },
                Card {
                    id: 1528716,
                    season: 1,
                },
            ]),
        },
    };

    assert_eq!(parsed, expected);
}

#[test]
fn desearialize_empty_deck() {
    let test_xml = r#"
            <CARDS>
            <DECK/>
            </CARDS>
            "#;

    let parsed: Cards = parse(test_xml).unwrap();

    let expected = Cards {
        deck: Deck { cards: None },
    };

    assert_eq!(parsed, expected);
}

#[test]
fn parses_deck_with_open_and_close_tags_but_no_cards_as_absent() {
    let parsed = parse("<CARDS><DECK></DECK></CARDS>").unwrap();
    assert_eq!(parsed, Cards { deck: Deck { cards: None } });
}

#[test]
fn parses_document_with_xml_prologue() {
    let parsed = parse(
        "<?xml version=\"1.0\" encoding=\"UTF-8\"?>\n<CARDS><DECK><CARD><CARDID>7</CARDID><SEASON>2</SEASON></CARD></DECK></CARDS>",
    )
    .unwrap();
    assert_eq!(
        parsed,
        Cards {
            deck: Deck {
                cards: Some(vec![Card { id: 7, season: 2 }])
            }
        }
    );
}

#[test]
fn ignores_self_closing_extra_child() {
    let parsed = parse(
        "<CARDS><DECK><CARD><MARKET/><CARDID>9</CARDID><SEASON>3</SEASON></CARD></DECK></CARDS>",
    )
    .unwrap();
    assert_eq!(
        parsed,
        Cards {
            deck: Deck {
                cards: Some(vec![Card { id: 9, season: 3 }])
            }
        }
    );
}

#[test]
fn accepts_largest_card_id_and_season() {
    let parsed = parse(
        "<CARDS><DECK><CARD><CARDID>4294967295</CARDID><SEASON>255</SEASON></CARD></DECK></CARDS>",
    )
    .unwrap();
    assert_eq!(
        parsed,
        Cards {
            deck: Deck {
                cards: Some(vec![Card {
                    id: 4294967295,
                    season: 255
                }])
            }
        }
    );
}

#[test]
fn rejects_card_without_season() {
    assert!(parse("<CARDS><DECK><CARD><CARDID>1</CARDID></CARD></DECK></CARDS>").is_err());
}

#[test]
fn rejects_card_without_id() {
    assert!(parse("<CARDS><DECK><CARD><SEASON>1</SEASON></CARD></DECK></CARDS>").is_err());
}

#[test]
fn rejects_non_numeric_id() {
    assert!(
        parse("<CARDS><DECK><CARD><CARDID>x1</CARDID><SEASON>1</SEASON></CARD></DECK></CARDS>")
            .is_err()
    );
}

#[test]
fn rejects_card_id_above_range() {
    assert!(parse(
        "<CARDS><DECK><CARD><CARDID>4294967296</CARDID><SEASON>1</SEASON></CARD></DECK></CARDS>"
    )
    .is_err());
}

#[test]
fn rejects_season_above_range() {
    assert!(parse(
        "<CARDS><DECK><CARD><CARDID>1</CARDID><SEASON>256</SEASON></CARD></DECK></CARDS>"
    )
    .is_err());
}

#[test]
fn rejects_duplicate_id_field() {
    assert!(parse(
        "<CARDS><DECK><CARD><CARDID>1</CARDID><CARDID>2</CARDID><SEASON>1</SEASON></CARD></DECK></CARDS>"
    )
    .is_err());
}

#[test]
fn rejects_mismatched_child_closing_tag() {
    assert!(parse(
        "<CARDS><DECK><CARD><CATEGORY>rare</OTHER><CARDID>1</CARDID><SEASON>1</SEASON></CARD></DECK></CARDS>"
    )
    .is_err());
}

#[test]
fn rejects_truncated_document() {
    assert!(parse("<CARDS><DECK><CARD><CARDID>1</CARDID><SEASON>1</SEASON>").is_err());
}

#[test]
fn rejects_trailing_garbage() {
    assert!(parse("<CARDS><DECK/></CARDS>leftover").is_err());
}

#[test]
fn rejects_empty_input() {
    assert!(parse("").is_err());
}

#[test]
fn parse_error_message_names_the_problem() {
    let err = parse("not xml at all").unwrap_err();
    assert_eq!(err.message(), "could not parse the deck response");
}
