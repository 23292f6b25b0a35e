use food_journal::error::{ErrorKind, FjError};
use food_journal::journal::{JournalApiResponse, JournalEntryResponse};
use food_journal::record::JournalEntry;
use food_journal::token::Numeral;

fn entry(text: &str, timestamp: u64) -> JournalEntry {
    JournalEntry {
        text: text.to_string(),
        quantity: Numeral::parse("2.0").unwrap(),
        quantity_units: "slice".to_string(),
        calories: 320,
        carbohydrate: 54,
        fat: 6,
        protein: 11,
        timestamp,
    }
}

fn response(id: &str, text: &str, timestamp: u64) -> JournalEntryResponse {
    JournalEntryResponse {
        id: id.to_string(),
        text: text.to_string(),
        timestamp,
        quantity: Numeral::parse("2.0").unwrap(),
        quantity_units: "slice".to_string(),
        calories: 320,
        carbohydrate: 54,
        fat: 6,
        protein: 11,
    }
}

#[test]
fn as_response_with_id_adds_the_identifier() {
    let bread = entry("bread with butter and jam", 1709300000000);
    assert_eq!(
        bread.as_response_with_id("2024-03-01.1709300000000"),
        response("2024-03-01.1709300000000", "bread with butter and jam", 1709300000000)
    );
    assert_eq!(bread, entry("bread with butter and jam", 1709300000000));
}

#[test]
fn the_journal_leaves_out_rows_that_could_not_be_read() {
    let listing = vec![
        Err(FjError::new(ErrorKind::InvalidInput)),
        Ok(("a".to_string(), entry("first", 1))),
        Err(FjError::new(ErrorKind::CorruptRecord)),
        Ok(("b".to_string(), entry("second", 2))),
    ];
    let journal = JournalApiResponse::from_listing(&listing);
    assert_eq!(journal.records, vec![response("a", "first", 1), response("b", "second", 2)]);
    assert_eq!(JournalApiResponse::from_listing(&vec![]).records, vec![]);
}
