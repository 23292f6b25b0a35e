//! The shapes in which journal entries are handed out.

use crate::error::FjError;
use crate::record::{JournalEntry, JournalEntryView};
use crate::token::Numeral;
use vstd::prelude::*;

verus! {

/// A journal entry as it is handed out: the stored entry together with its
/// identifier within the journal, which the key holds.
#[derive(Debug, PartialEq, Eq)]
pub struct JournalEntryResponse {
    pub id: String,
    pub text: String,
    pub timestamp: u64,
    pub quantity: Numeral,
    pub quantity_units: String,
    pub calories: u64,
    pub carbohydrate: u64,
    pub fat: u64,
    pub protein: u64,
}

/// What a `JournalEntryResponse` stands for.
pub struct JournalEntryResponseView {
    pub id: Seq<char>,
    pub entry: JournalEntryView,
}

impl View for JournalEntryResponse {
    type V = JournalEntryResponseView;

    open spec fn view(&self) -> JournalEntryResponseView {
        JournalEntryResponseView {
            id: self.id@,
            entry: JournalEntryView {
                text: self.text@,
                quantity: self.quantity@,
                quantity_units: self.quantity_units@,
                calories: self.calories,
                carbohydrate: self.carbohydrate,
                fat: self.fat,
                protein: self.protein,
                timestamp: self.timestamp,
            },
        }
    }
}

/// The journal of a user.
#[derive(Debug, PartialEq, Eq)]
pub struct JournalApiResponse {
    pub records: Vec<JournalEntryResponse>,
}

impl JournalEntry {
    /// The entry as it is handed out, under its identifier.
    pub fn as_response_with_id(&self, id: &str) -> (r: JournalEntryResponse)
        ensures
            r@.id == id@,
            r@.entry == self@,
    {
        JournalEntryResponse {
            id: id.to_owned(),
            text: self.text.clone(),
            timestamp: self.timestamp,
            quantity: self.quantity.clone(),
            quantity_units: self.quantity_units.clone(),
            calories: self.calories,
            carbohydrate: self.carbohydrate,
            fat: self.fat,
            protein: self.protein,
        }
    }
}

/// The responses for the rows of a journal that could be read, in their
/// order.
pub open spec fn readable_entries(listing: Seq<Result<(String, JournalEntry), FjError>>) -> Seq<
    JournalEntryResponseView,
>
    decreases listing.len(),
{
    if listing.len() == 0 {
        Seq::empty()
    } else {
        match listing.last() {
            Ok(p) => readable_entries(listing.drop_last()).push(
                JournalEntryResponseView { id: p.0@, entry: p.1@ },
            ),
            Err(_) => readable_entries(listing.drop_last()),
        }
    }
}

/// What a list of responses stands for.
pub open spec fn records_view(records: Seq<JournalEntryResponse>) -> Seq<JournalEntryResponseView> {
    records.map_values(|r: JournalEntryResponse| r@)
}

impl JournalApiResponse {
    /// The journal made of the rows that could be read. A row that could not
    /// be read is left out; the others keep their order.
    pub fn from_listing(listing: &Vec<Result<(String, JournalEntry), FjError>>) -> (r:
        JournalApiResponse)
        ensures
            records_view(r.records@) == readable_entries(listing@),
    {
        let mut records: Vec<JournalEntryResponse> = Vec::new();
        let mut k: usize = 0;
        while k < listing.len()
            invariant
                0 <= k <= listing.len(),
                records_view(records@) == readable_entries(listing@.take(k as int)),
            decreases listing.len() - k,
        {
            proof {
                let done = listing@.take(k as int);
                let next = listing@.take(k + 1);
                assert(next.drop_last() == done);
                assert(next.last() == listing@[k as int]);
            }
            match &listing[k] {
                Ok(p) => {
                    let ghost before = records_view(records@);
                    let response = p.1.as_response_with_id(p.0.as_str());
                    records.push(response);
                    assert(records_view(records@) == before.push(response@));
                },
                Err(_) => {},
            }
            k += 1;
        }
        assert(listing@.take(listing.len() as int) == listing@);
        JournalApiResponse { records }
    }
}

} // verus!
