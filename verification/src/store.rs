//! The entity operations on the store.
//!
//! Each operation runs inside one transaction of the storage engine, which
//! the caller owns. The caller reads what the operation needs, hands it over,
//! and receives either the result together with the writes to commit as one
//! unit, or a failure, on which the transaction is to be aborted. A write
//! that the engine refuses is not retried: the caller reports it as
//! `Conflict`, and a failure of the engine's input or output as
//! `StorageUnavailable`.
//!
//! | operation              | transaction | reads                          |
//! |------------------------|-------------|--------------------------------|
//! | `get_user`             | read        | the key of `user_key`          |
//! | `put_user`             | write       | nothing                        |
//! | `list_users`           | read        | the scan of `users_prefix`     |
//! | `append_journal_entry` | write       | the key of `user_key`          |
//! | `list_journal_entries` | read        | the scan of `entry_prefix`     |
//! | `advance_day`          | write       | the key of `user_key`          |

use crate::date::{
    date_lt, is_calendar_date, is_last_date, iso_date_text, next_day, CivilDate, YearMonthDay,
};
use crate::error::{ErrorKind, FjError};
use crate::keys::{
    entry_id, entry_id_from_key, entry_id_text, entry_key, entry_key_text, entry_prefix_text,
    is_timestamp, is_user_id, lemma_entry_key_injective, lemma_families_are_disjoint,
    lemma_recall_keys_collide, recall_key, recall_key_text, user_id_from_key, user_key,
    user_key_text, RECALL_PREFIX_LENGTH,
};
use crate::object::{
    are_fields, fields_view, is_field, object_text, read_object, write_object, FieldView,
    ValueView,
};
use crate::record::{
    date_of, decode_entry, decode_user, describes_user, encode_entry, encode_user, entry_in_text,
    entry_record_text, find_field, has_value, is_entry, is_user, lemma_user_field_names,
    lemma_user_fields,
    make_text_field, names_once, text_field, user_fields, user_in_text, user_record_text,
    JournalEntry, JournalEntryView, UserDbRecord, UserView,
};
use crate::text::{contains_char, decimal_text};
use vstd::prelude::*;

verus! {

/// One write to the table: the value to store under a key, in place of what
/// is stored there.
#[derive(Debug, PartialEq, Eq)]
pub struct Put {
    pub key: String,
    pub value: String,
}

/// Whether `fields` are the members of the record `text`.
pub open spec fn is_record(text: Seq<char>, fields: Seq<FieldView>) -> bool {
    are_fields(fields) && text == object_text(fields)
}

/// Whether `fields` holds the day cursor `d`: exactly one member named
/// `current_date`, with the text of the calendar date `d`.
pub open spec fn has_day_cursor(fields: Seq<FieldView>, d: YearMonthDay) -> bool {
    is_calendar_date(d) && has_value(fields, "current_date"@, ValueView::Text(iso_date_text(d)))
}

/// Whether `text` is a record with the day cursor `d`.
pub open spec fn day_cursor_in_text(text: Seq<char>, d: YearMonthDay) -> bool {
    exists|fields: Seq<FieldView>| #[trigger] is_record(text, fields) && has_day_cursor(fields, d)
}

/// A record that holds a profile has the day cursor of that profile.
pub proof fn lemma_profile_has_day_cursor(text: Seq<char>, u: UserView)
    requires
        user_in_text(text, u),
    ensures
        day_cursor_in_text(text, u.current_date),
{
    let fields = choose|fields: Seq<FieldView>|
        are_fields(fields) && text == #[trigger] object_text(fields) && describes_user(fields, u);
    assert(is_record(text, fields));
}

/// The text that a profile is stored as holds that profile and its day
/// cursor.
pub proof fn lemma_stored_profile(u: UserView)
    requires
        is_user(u),
    ensures
        user_in_text(user_record_text(u), u),
        day_cursor_in_text(user_record_text(u), u.current_date),
{
    lemma_user_fields(u);
    lemma_profile_has_day_cursor(user_record_text(u), u);
}

/// The fields with the string `value` in place of the value of every member
/// named `name`; all other members stay as they are, in their places.
pub open spec fn with_text(fields: Seq<FieldView>, name: Seq<char>, value: Seq<char>) -> Seq<
    FieldView,
> {
    Seq::new(
        fields.len(),
        |k: int|
            if fields[k].name == name {
                text_field(name, value)
            } else {
                fields[k]
            },
    )
}

/// The day cursor of the user whose stored profile is `stored`. Only the
/// cursor is looked at: the rest of the record may hold anything. It fails
/// with `NotFound` where nothing is stored and with `CorruptRecord` where
/// what is stored is no record with a day cursor.
pub fn get_current_date(stored: Option<&str>) -> (r: Result<CivilDate, FjError>)
    ensures
        stored is None ==> (r matches Err(e) && e.kind == ErrorKind::NotFound),
        stored matches Some(text) ==> {
            &&& r matches Ok(d) ==> day_cursor_in_text(text@, d@)
            &&& forall|x: YearMonthDay| #[trigger]
                day_cursor_in_text(text@, x) ==> (r matches Ok(d) && d@ == x)
            &&& forall|x: UserView| #[trigger]
                user_in_text(text@, x) ==> (r matches Ok(d) && d@ == x.current_date)
            &&& forall|x: UserView|
                is_user(x) && text@ == #[trigger] user_record_text(x) ==> (r matches Ok(d) && d@
                    == x.current_date)
            &&& r matches Err(e) ==> e.kind == ErrorKind::CorruptRecord
        },
{
    let text = match stored {
        Some(text) => text,
        None => { return Err(FjError::new(ErrorKind::NotFound)); },
    };
    proof {
        assert forall|x: UserView| #[trigger] user_in_text(text@, x) implies day_cursor_in_text(
            text@,
            x.current_date,
        ) by {
            lemma_profile_has_day_cursor(text@, x);
        }
        assert forall|x: UserView|
            is_user(x) && text@ == #[trigger] user_record_text(x) implies day_cursor_in_text(
            text@,
            x.current_date,
        ) by {
            lemma_stored_profile(x);
        }
    }
    let corrupt = FjError::new(ErrorKind::CorruptRecord);
    let fields = match read_object(text) {
        Some(fields) => fields,
        None => {
            proof {
                assert forall|x: YearMonthDay| !#[trigger] day_cursor_in_text(text@, x) by {
                    if day_cursor_in_text(text@, x) {
                        let f = choose|f: Seq<FieldView>| #[trigger]
                            is_record(text@, f) && has_day_cursor(f, x);
                        assert(text@ == object_text(f));
                    }
                }
            }
            return Err(corrupt);
        },
    };
    let ghost all = fields_view(fields@);
    proof {
        assert(is_record(text@, all));
        assert forall|x: YearMonthDay| #[trigger]
            day_cursor_in_text(text@, x) implies has_day_cursor(all, x) by {
            let f = choose|f: Seq<FieldView>| #[trigger]
                is_record(text@, f) && has_day_cursor(f, x);
            assert(text@ == object_text(f));
        }
    }
    match date_of(&fields, "current_date") {
        Some(d) => Ok(d),
        None => Err(corrupt),
    }
}

/// The profile of a user, from what is stored under the key of the user. It
/// fails with `NotFound` where nothing is stored and with `CorruptRecord`
/// where what is stored does not hold a profile.
pub fn get_user(stored: Option<&str>) -> (r: Result<UserDbRecord, FjError>)
    ensures
        stored is None ==> (r matches Err(e) && e.kind == ErrorKind::NotFound),
        stored matches Some(text) ==> {
            &&& r matches Ok(u) ==> user_in_text(text@, u@)
            &&& forall|x: UserView| #[trigger]
                user_in_text(text@, x) ==> (r matches Ok(u) && u@ == x)
            &&& forall|x: UserView|
                is_user(x) && text@ == #[trigger] user_record_text(x) ==> (r matches Ok(u) && u@
                    == x)
            &&& r matches Err(e) ==> e.kind == ErrorKind::CorruptRecord
        },
{
    match stored {
        Some(text) => decode_user(text),
        None => Err(FjError::new(ErrorKind::NotFound)),
    }
}

/// The write that stores `profile` as the profile of `user_id`, in place of
/// any profile stored before. An identifier that contains the separator is
/// refused.
pub fn put_user(user_id: &str, profile: &UserDbRecord) -> (r: Result<Put, FjError>)
    ensures
        is_user(profile@),
        r matches Ok(put) ==> {
            &&& is_user_id(user_id@)
            &&& put.key@ == user_key_text(user_id@)
            &&& put.value@ == user_record_text(profile@)
        },
        r matches Err(e) ==> !is_user_id(user_id@) && e.kind == ErrorKind::InvalidInput,
{
    let value = encode_user(profile);
    match user_key(user_id) {
        Ok(key) => Ok(Put { key, value }),
        Err(e) => Err(e),
    }
}

/// The profile `u` with the day cursor `d`.
pub open spec fn user_on(u: UserView, d: YearMonthDay) -> UserView {
    UserView {
        image: u.image,
        display_name: u.display_name,
        target_calories: u.target_calories,
        target_fat: u.target_fat,
        target_protein: u.target_protein,
        target_carbohydrate: u.target_carbohydrate,
        current_date: d,
    }
}

/// Replacing the day cursor among the members of a profile gives the members
/// of the profile with the new cursor: nothing else changes.
pub proof fn lemma_user_fields_with_date(u: UserView, d: YearMonthDay)
    ensures
        with_text(user_fields(u), "current_date"@, iso_date_text(d)) == user_fields(user_on(u, d)),
{
    lemma_user_field_names();
    assert(with_text(user_fields(u), "current_date"@, iso_date_text(d)) =~= user_fields(
        user_on(u, d),
    ));
}

/// Replacing the day cursor among the members of any record that holds a
/// profile gives a record that holds the same profile with the new cursor,
/// whatever else the record holds and in whatever order.
pub proof fn lemma_rollover_keeps_profile(fields: Seq<FieldView>, u: UserView, d: YearMonthDay)
    requires
        are_fields(fields),
        describes_user(fields, u),
        is_calendar_date(d),
    ensures
        are_fields(with_text(fields, "current_date"@, iso_date_text(d))),
        describes_user(with_text(fields, "current_date"@, iso_date_text(d)), user_on(u, d)),
{
    lemma_user_field_names();
    let cursor = "current_date"@;
    let after = with_text(fields, cursor, iso_date_text(d));
    assert forall|k: int| 0 <= k < after.len() implies is_field(#[trigger] after[k]) by {
        assert(is_field(fields[k]));
    }
    lemma_with_text_keeps(fields, cursor, iso_date_text(d), "image"@, ValueView::Text(u.image));
    lemma_with_text_keeps(
        fields,
        cursor,
        iso_date_text(d),
        "display_name"@,
        ValueView::Text(u.display_name),
    );
    lemma_with_text_keeps(
        fields,
        cursor,
        iso_date_text(d),
        "target_calories"@,
        ValueView::Number(decimal_text(u.target_calories as nat)),
    );
    lemma_with_text_keeps(
        fields,
        cursor,
        iso_date_text(d),
        "target_fat"@,
        ValueView::Number(decimal_text(u.target_fat as nat)),
    );
    lemma_with_text_keeps(
        fields,
        cursor,
        iso_date_text(d),
        "target_protein"@,
        ValueView::Number(decimal_text(u.target_protein as nat)),
    );
    lemma_with_text_keeps(
        fields,
        cursor,
        iso_date_text(d),
        "target_carbohydrate"@,
        ValueView::Number(decimal_text(u.target_carbohydrate as nat)),
    );
    let i = choose|i: int| #[trigger]
        names_once(fields, cursor, i) && fields[i].value == ValueView::Text(
            iso_date_text(u.current_date),
        );
    assert(names_once(after, cursor, i)) by {
        assert forall|j: int| 0 <= j < after.len() && (#[trigger] after[j]).name
            == cursor implies j == i by {
            assert(fields[j].name == cursor);
        }
    }
    assert(after[i].value == ValueView::Text(iso_date_text(d)));
}

/// Replacing the value of one name leaves the value of every other name as
/// it was.
pub proof fn lemma_with_text_keeps(
    fields: Seq<FieldView>,
    name: Seq<char>,
    value: Seq<char>,
    other: Seq<char>,
    kept: ValueView,
)
    requires
        other != name,
        has_value(fields, other, kept),
    ensures
        has_value(with_text(fields, name, value), other, kept),
{
    let after = with_text(fields, name, value);
    let i = choose|i: int| #[trigger] names_once(fields, other, i) && fields[i].value == kept;
    assert(names_once(after, other, i)) by {
        assert forall|j: int| 0 <= j < after.len() && (#[trigger] after[j]).name
            == other implies j == i by {
            assert(fields[j].name == other);
        }
    }
    assert(after[i].value == kept);
}

/// What the rollover of a day yields: the new day cursor and the write that
/// stores it.
#[derive(Debug, PartialEq, Eq)]
pub struct DayAdvance {
    pub new_date: CivilDate,
    pub put: Put,
}

/// Ends the day of `user_id`: moves the day cursor of the stored profile 27
/// hours on, which is the following calendar day.
///
/// Only the cursor is replaced. Every other member of the stored record,
/// known to this library or not, is written back as it was read, in its
/// place.
///
/// It fails with `InvalidInput` for an identifier that contains the
/// separator, with `NotFound` where no profile is stored, with
/// `CorruptRecord` where what is stored is no record with a day cursor, and
/// with `InvalidInput` where the cursor stands on the last date, which has no
/// following day.
pub fn advance_day(user_id: &str, stored: Option<&str>) -> (r: Result<DayAdvance, FjError>)
    ensures
        !is_user_id(user_id@) ==> (r matches Err(e) && e.kind == ErrorKind::InvalidInput),
        is_user_id(user_id@) && stored is None ==> (r matches Err(e) && e.kind
            == ErrorKind::NotFound),
        is_user_id(user_id@) && stored is Some ==> {
            let text = stored->0@;
            &&& (forall|d: YearMonthDay| !#[trigger] day_cursor_in_text(text, d)) ==> (
            r matches Err(e) && e.kind == ErrorKind::CorruptRecord)
            &&& forall|d: YearMonthDay| #[trigger]
                day_cursor_in_text(text, d) ==> if is_last_date(d) {
                    r matches Err(e) && e.kind == ErrorKind::InvalidInput
                } else {
                    r matches Ok(a) && a.new_date@ == next_day(d) && date_lt(d, a.new_date@)
                        && a.put.key@ == user_key_text(user_id@)
                }
            &&& forall|d: YearMonthDay, fields: Seq<FieldView>|
                #![trigger is_record(text, fields), has_day_cursor(fields, d)]
                is_record(text, fields) && has_day_cursor(fields, d) && !is_last_date(d) ==> (
                r matches Ok(a) && a.put.value@ == object_text(
                    with_text(fields, "current_date"@, iso_date_text(next_day(d))),
                ))
            &&& forall|x: UserView| #[trigger]
                user_in_text(text, x) ==> day_cursor_in_text(text, x.current_date) && (
                !is_last_date(x.current_date) ==> (r matches Ok(a) && user_in_text(
                    a.put.value@,
                    user_on(x, next_day(x.current_date)),
                )))
            &&& forall|x: UserView|
                is_user(x) && text == #[trigger] user_record_text(x) ==> user_in_text(text, x) && (
                !is_last_date(x.current_date) ==> (r matches Ok(a) && a.put.value@
                    == user_record_text(user_on(x, next_day(x.current_date)))))
        },
{
    let key = match user_key(user_id) {
        Ok(key) => key,
        Err(e) => { return Err(e); },
    };
    let text = match stored {
        Some(text) => text,
        None => { return Err(FjError::new(ErrorKind::NotFound)); },
    };
    let corrupt = FjError::new(ErrorKind::CorruptRecord);
    proof {
        assert forall|x: UserView| #[trigger] user_in_text(text@, x) implies day_cursor_in_text(
            text@,
            x.current_date,
        ) by {
            lemma_profile_has_day_cursor(text@, x);
        }
        assert forall|x: UserView|
            is_user(x) && text@ == #[trigger] user_record_text(x) implies is_record(
            text@,
            user_fields(x),
        ) && has_day_cursor(user_fields(x), x.current_date) && user_in_text(text@, x) by {
            lemma_user_fields(x);
        }
        assert forall|x: UserView, d: YearMonthDay| #[trigger]
            with_text(user_fields(x), "current_date"@, iso_date_text(d)) == user_fields(
                user_on(x, d),
            ) by {
            lemma_user_fields_with_date(x, d);
        }
    }
    let mut fields = match read_object(text) {
        Some(fields) => fields,
        None => {
            proof {
                assert forall|d: YearMonthDay, f: Seq<FieldView>|
                    !(#[trigger] is_record(text@, f) && #[trigger] has_day_cursor(f, d)) by {
                    if is_record(text@, f) {
                        assert(text@ == object_text(f));
                    }
                }
            }
            return Err(corrupt);
        },
    };
    let ghost all = fields_view(fields@);
    proof {
        assert(is_record(text@, all));
        assert forall|f: Seq<FieldView>| #[trigger] is_record(text@, f) implies f == all by {
            assert(text@ == object_text(f));
        }
        assert forall|x: UserView| #[trigger] user_in_text(text@, x) implies describes_user(
            all,
            x,
        ) by {
            let f = choose|f: Seq<FieldView>|
                are_fields(f) && text@ == #[trigger] object_text(f) && describes_user(f, x);
            assert(is_record(text@, f));
        }
    }
    let date = match date_of(&fields, "current_date") {
        Some(d) => d,
        None => { return Err(corrupt); },
    };
    proof {
        assert(has_day_cursor(all, date@));
        assert(day_cursor_in_text(text@, date@));
        assert forall|d: YearMonthDay, f: Seq<FieldView>|
            #[trigger] is_record(text@, f) && #[trigger] has_day_cursor(f, d) implies d
            == date@ by {}
        assert forall|d: YearMonthDay| #[trigger] day_cursor_in_text(text@, d) implies d
            == date@ by {
            let f = choose|f: Seq<FieldView>| #[trigger]
                is_record(text@, f) && has_day_cursor(f, d);
            assert(f == all);
        }
        assert forall|x: UserView|
            is_user(x) && text@ == #[trigger] user_record_text(x) implies x.current_date
            == date@ && user_fields(x) == all by {}
    }
    let place = match find_field(&fields, "current_date") {
        Some(i) => i,
        None => {
            proof {
                let i = choose|i: int| #[trigger]
                    names_once(all, "current_date"@, i) && all[i].value == ValueView::Text(
                        iso_date_text(date@),
                    );
                assert(names_once(all, "current_date"@, i));
            }
            return Err(corrupt);
        },
    };
    let new_date = match date.plus_27_hours() {
        Some(d) => d,
        None => { return Err(FjError::new(ErrorKind::InvalidInput)); },
    };
    let new_text = new_date.to_text();
    fields.set(place, make_text_field("current_date", new_text.as_str()));
    proof {
        assert(fields_view(fields@) =~= with_text(
            all,
            "current_date"@,
            iso_date_text(new_date@),
        ));
    }
    let value = write_object(&fields);
    proof {
        let after = with_text(all, "current_date"@, iso_date_text(new_date@));
        assert forall|x: UserView| #[trigger] user_in_text(text@, x) implies user_in_text(
            value@,
            user_on(x, new_date@),
        ) by {
            lemma_rollover_keeps_profile(all, x, new_date@);
            assert(value@ == object_text(after));
        }
    }
    Ok(DayAdvance { new_date, put: Put { key, value } })
}

/// What posting a journal entry yields: the identifier of the entry within
/// the journal of its user, and the two writes that store it, under its own
/// key and under its recall key.
#[derive(Debug, PartialEq, Eq)]
pub struct JournalAppend {
    pub entry_id: String,
    pub entry: Put,
    pub recall: Put,
}

/// Posts `entry` to the journal of `user_id` on the day that the day cursor
/// of the stored profile stands on. The entry is stored twice, under its key
/// in the journal and under its recall key, where it replaces whatever an
/// earlier entry with the same first sixteen characters left there.
///
/// The key in the journal holds the user, the day and the timestamp and
/// nothing else: a second post of the same user on the same day with the
/// same timestamp has the same key and replaces the first. It is for the
/// caller to hand over timestamps that differ.
///
/// It fails before any write: with `InvalidInput` for an identifier that
/// contains the separator, with `NotFound` where no profile is stored, with
/// `CorruptRecord` where what is stored is no record with a day cursor, and
/// with `InvalidInput` for a timestamp of more than thirteen digits or a text
/// of fewer than sixteen characters.
pub fn append_journal_entry(user_id: &str, stored_user: Option<&str>, entry: &JournalEntry) -> (r:
    Result<JournalAppend, FjError>)
    ensures
        is_entry(entry@),
        !is_user_id(user_id@) ==> (r matches Err(e) && e.kind == ErrorKind::InvalidInput),
        is_user_id(user_id@) && stored_user is None ==> (r matches Err(e) && e.kind
            == ErrorKind::NotFound),
        is_user_id(user_id@) && stored_user is Some ==> {
            let text = stored_user->0@;
            &&& (forall|d: YearMonthDay| !#[trigger] day_cursor_in_text(text, d)) ==> (
            r matches Err(e) && e.kind == ErrorKind::CorruptRecord)
            &&& forall|d: YearMonthDay| #[trigger]
                day_cursor_in_text(text, d) && !(is_timestamp(entry.timestamp) && entry.text@.len()
                    >= RECALL_PREFIX_LENGTH) ==> (r matches Err(e) && e.kind
                    == ErrorKind::InvalidInput)
            &&& forall|d: YearMonthDay| #[trigger]
                day_cursor_in_text(text, d) && is_timestamp(entry.timestamp) && entry.text@.len()
                    >= RECALL_PREFIX_LENGTH ==> (r matches Ok(a) && {
                    &&& a.entry_id@ == entry_id_text(d, entry.timestamp)
                    &&& a.entry.key@ == entry_key_text(user_id@, d, entry.timestamp)
                    &&& a.entry.value@ == entry_record_text(entry@)
                    &&& a.recall.key@ == recall_key_text(entry.text@)
                    &&& a.recall.value@ == entry_record_text(entry@)
                })
            &&& forall|x: UserView| #[trigger]
                user_in_text(text, x) ==> day_cursor_in_text(text, x.current_date)
            &&& forall|x: UserView|
                is_user(x) && text == #[trigger] user_record_text(x) ==> day_cursor_in_text(
                    text,
                    x.current_date,
                )
        },
{
    proof {
        if stored_user is Some {
            let text = stored_user->0@;
            assert forall|x: UserView| #[trigger] user_in_text(text, x) implies day_cursor_in_text(
                text,
                x.current_date,
            ) by {
                lemma_profile_has_day_cursor(text, x);
            }
            assert forall|x: UserView|
                is_user(x) && text == #[trigger] user_record_text(x) implies day_cursor_in_text(
                text,
                x.current_date,
            ) by {
                lemma_stored_profile(x);
            }
        }
    }
    let value = encode_entry(entry);
    if contains_char(user_id, '.') {
        return Err(FjError::new(ErrorKind::InvalidInput));
    }
    let date = match get_current_date(stored_user) {
        Ok(date) => date,
        Err(e) => { return Err(e); },
    };
    let id = match entry_id(&date, entry.timestamp) {
        Ok(id) => id,
        Err(e) => { return Err(e); },
    };
    let key = match entry_key(user_id, &date, entry.timestamp) {
        Ok(key) => key,
        Err(e) => { return Err(e); },
    };
    let recall = match recall_key(entry.text.as_str()) {
        Ok(key) => key,
        Err(e) => { return Err(e); },
    };
    let copy = value.clone();
    Ok(
        JournalAppend {
            entry_id: id,
            entry: Put { key, value },
            recall: Put { key: recall, value: copy },
        },
    )
}

/// Whether `key` is the key of a profile.
pub open spec fn is_user_key(key: Seq<char>) -> bool {
    exists|id: Seq<char>| is_user_id(id) && key == #[trigger] user_key_text(id)
}

/// Whether `r` is what reading the row `key`, `value` as a profile has to
/// give: the user and the profile where the row holds them, `InvalidInput`
/// for a key that is no key of a profile, and `CorruptRecord` for a value
/// that holds no profile.
pub open spec fn is_user_row_result(
    key: Seq<char>,
    value: Seq<char>,
    r: Result<(String, UserDbRecord), FjError>,
) -> bool {
    &&& r matches Ok(p) ==> is_user_id(p.0@) && key == user_key_text(p.0@) && user_in_text(
        value,
        p.1@,
    )
    &&& forall|id: Seq<char>, x: UserView|
        #![trigger user_key_text(id), user_in_text(value, x)]
        is_user_id(id) && key == user_key_text(id) && user_in_text(value, x) ==> (
        r matches Ok(p) && p.0@ == id && p.1@ == x)
    &&& !is_user_key(key) ==> (r matches Err(e) && e.kind == ErrorKind::InvalidInput)
    &&& r matches Err(e) ==> (is_user_key(key) ==> e.kind == ErrorKind::CorruptRecord)
}

/// Reads one row of the scan over the profiles.
pub fn read_user_row(key: &str, value: &str) -> (r: Result<(String, UserDbRecord), FjError>)
    ensures
        is_user_row_result(key@, value@, r),
{
    let id = match user_id_from_key(key) {
        Ok(id) => id,
        Err(e) => {
            return Err(e);
        },
    };
    proof {
        assert(is_user_key(key@));
        assert forall|other: Seq<char>| key@ == #[trigger] user_key_text(other) implies other
            == id@ by {
            assert(key@.skip("user."@.len() as int) == other);
            assert(key@.skip("user."@.len() as int) == id@);
        }
    }
    match decode_user(value) {
        Ok(user) => Ok((id, user)),
        Err(e) => Err(e),
    }
}

/// The profiles of all users, from the rows of the scan over the prefix of
/// the profiles. The results stand in the order of the rows, which is the
/// order of the keys and so of the user identifiers. A row that cannot be
/// read is reported in its place and does not hide the others.
pub fn list_users(rows: &Vec<(String, String)>) -> (out: Vec<Result<(String, UserDbRecord), FjError>>)
    ensures
        out.len() == rows.len(),
        forall|i: int|
            0 <= i < rows.len() ==> is_user_row_result(rows[i].0@, rows[i].1@, #[trigger] out[i]),
{
    let mut out: Vec<Result<(String, UserDbRecord), FjError>> = Vec::new();
    let mut k: usize = 0;
    while k < rows.len()
        invariant
            0 <= k <= rows.len(),
            out.len() == k,
            forall|i: int|
                0 <= i < k ==> is_user_row_result(rows[i].0@, rows[i].1@, #[trigger] out[i]),
        decreases rows.len() - k,
    {
        let row = &rows[k];
        out.push(read_user_row(row.0.as_str(), row.1.as_str()));
        k += 1;
    }
    out
}

/// Whether `r` is what reading the row `key`, `value` as an entry of the
/// journal of `user_id` has to give: the identifier and the entry where the
/// row holds them, `InvalidInput` for a key outside that journal, and
/// `CorruptRecord` for a value that holds no entry.
pub open spec fn is_entry_row_result(
    user_id: Seq<char>,
    key: Seq<char>,
    value: Seq<char>,
    r: Result<(String, JournalEntry), FjError>,
) -> bool {
    let in_journal = is_user_id(user_id) && entry_prefix_text(user_id).is_prefix_of(key);
    &&& r matches Ok(p) ==> in_journal && key == entry_prefix_text(user_id) + p.0@
        && entry_in_text(value, p.1@)
    &&& forall|x: JournalEntryView| #[trigger]
        entry_in_text(value, x) && in_journal ==> (r matches Ok(p) && p.1@ == x)
    &&& !in_journal ==> (r matches Err(e) && e.kind == ErrorKind::InvalidInput)
    &&& r matches Err(e) ==> (in_journal ==> e.kind == ErrorKind::CorruptRecord)
}

/// Reads one row of the scan over the journal of `user_id`.
pub fn read_entry_row(user_id: &str, key: &str, value: &str) -> (r: Result<
    (String, JournalEntry),
    FjError,
>)
    ensures
        is_entry_row_result(user_id@, key@, value@, r),
{
    let id = match entry_id_from_key(key, user_id) {
        Ok(id) => id,
        Err(e) => {
            return Err(e);
        },
    };
    proof {
        let prefix = entry_prefix_text(user_id@);
        assert((prefix + id@).subrange(0, prefix.len() as int) == prefix);
    }
    match decode_entry(value) {
        Ok(entry) => Ok((id, entry)),
        Err(e) => Err(e),
    }
}

/// The journal of `user_id`, from the rows of the scan over the prefix of
/// that journal. The results stand in the order of the rows, which is the
/// order of the keys: by day and, within a day, by timestamp. A row that
/// cannot be read is reported in its place and does not hide the others.
pub fn list_journal_entries(user_id: &str, rows: &Vec<(String, String)>) -> (out: Vec<
    Result<(String, JournalEntry), FjError>,
>)
    ensures
        out.len() == rows.len(),
        forall|i: int|
            0 <= i < rows.len() ==> is_entry_row_result(
                user_id@,
                rows[i].0@,
                rows[i].1@,
                #[trigger] out[i],
            ),
{
    let mut out: Vec<Result<(String, JournalEntry), FjError>> = Vec::new();
    let mut k: usize = 0;
    while k < rows.len()
        invariant
            0 <= k <= rows.len(),
            out.len() == k,
            forall|i: int|
                0 <= i < k ==> is_entry_row_result(
                    user_id@,
                    rows[i].0@,
                    rows[i].1@,
                    #[trigger] out[i],
                ),
        decreases rows.len() - k,
    {
        let row = &rows[k];
        out.push(read_entry_row(user_id, row.0.as_str(), row.1.as_str()));
        k += 1;
    }
    out
}

/// The table as the engine holds it: the value stored under each key.
pub type Table = Map<Seq<char>, Seq<char>>;

/// The table after the write of `value` under `key` is committed.
pub open spec fn table_with(table: Table, key: Seq<char>, value: Seq<char>) -> Table {
    table.insert(key, value)
}

/// The keys that a scan of `table` over `prefix` yields.
pub open spec fn scan_keys(table: Table, prefix: Seq<char>) -> Set<Seq<char>> {
    Set::new(|key: Seq<char>| table.dom().contains(key) && prefix.is_prefix_of(key))
}

/// The table after the two writes of a post are committed: the entry `e`
/// that the user `id` posted on `date`, under its key and under its recall
/// key.
pub open spec fn table_after_post(
    table: Table,
    id: Seq<char>,
    date: YearMonthDay,
    e: JournalEntryView,
) -> Table {
    table_with(
        table_with(table, entry_key_text(id, date, e.timestamp), entry_record_text(e)),
        recall_key_text(e.text),
        entry_record_text(e),
    )
}

/// Recall-index collision: after two posts of one user whose texts agree in
/// their first sixteen characters, the recall index holds the second entry,
/// and the journal of the user holds both.
pub proof fn lemma_second_post_takes_recall_key(
    table: Table,
    id: Seq<char>,
    d1: YearMonthDay,
    e1: JournalEntryView,
    d2: YearMonthDay,
    e2: JournalEntryView,
)
    requires
        is_calendar_date(d1),
        is_calendar_date(d2),
        is_timestamp(e1.timestamp),
        is_timestamp(e2.timestamp),
        d1 != d2 || e1.timestamp != e2.timestamp,
        e1.text.take(RECALL_PREFIX_LENGTH as int) == e2.text.take(RECALL_PREFIX_LENGTH as int),
    ensures
        ({
            let after = table_after_post(table_after_post(table, id, d1, e1), id, d2, e2);
            let first = entry_key_text(id, d1, e1.timestamp);
            let second = entry_key_text(id, d2, e2.timestamp);
            let journal = scan_keys(after, entry_prefix_text(id));
            &&& recall_key_text(e1.text) == recall_key_text(e2.text)
            &&& after[recall_key_text(e1.text)] == entry_record_text(e2)
            &&& journal.contains(first) && after[first] == entry_record_text(e1)
            &&& journal.contains(second) && after[second] == entry_record_text(e2)
            &&& !journal.contains(recall_key_text(e2.text))
        }),
{
    let first = entry_key_text(id, d1, e1.timestamp);
    let second = entry_key_text(id, d2, e2.timestamp);
    lemma_recall_keys_collide(e1.text, e2.text);
    lemma_families_are_disjoint(id, id, d1, e1.timestamp, e1.text);
    lemma_families_are_disjoint(id, id, d2, e2.timestamp, e2.text);
    lemma_families_are_disjoint(id, id, d1, e1.timestamp, e2.text);
    if first == second {
        lemma_entry_key_injective(id, d1, e1.timestamp, d2, e2.timestamp);
    }
}

/// Prefix correctness on the table: whatever else the table holds, a scan
/// over the prefix of the profiles yields the key of a stored profile and
/// yields no key of a journal entry or of the recall index.
pub proof fn lemma_scan_of_profiles(
    table: Table,
    id: Seq<char>,
    other: Seq<char>,
    date: YearMonthDay,
    timestamp: u64,
    text: Seq<char>,
)
    requires
        table.dom().contains(user_key_text(id)),
    ensures
        scan_keys(table, "user."@).contains(user_key_text(id)),
        !scan_keys(table, "user."@).contains(entry_key_text(other, date, timestamp)),
        !scan_keys(table, "user."@).contains(recall_key_text(text)),
{
    lemma_families_are_disjoint(id, id, date, timestamp, text);
    lemma_families_are_disjoint(other, id, date, timestamp, text);
}

} // verus!
