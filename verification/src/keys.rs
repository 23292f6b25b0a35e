//! The key grammar: how the record families share one ordered namespace.
//!
//! | family        | key                                   |
//! |---------------|---------------------------------------|
//! | user profile  | `user.<user_id>`                      |
//! | journal entry | `entry.<user_id>.<date>.<timestamp>`  |
//! | recall index  | `food.<first 16 characters of text>`  |
//!
//! A user identifier contains no `.`; the date is written `YYYY-MM-DD` and the
//! timestamp in thirteen digits, so that the entries of one user sort by day
//! and, within a day, by time.

use crate::date::{
    date_lt, is_calendar_date, iso_date_text, lemma_iso_date_text_order,
    lemma_iso_date_text_parts, CivilDate, YearMonthDay,
};
use crate::error::{ErrorKind, FjError};
use crate::order::{bytes_lt, lemma_utf8_order};
use crate::text::{
    contains_char, lemma_lex_lt_common_prefix, lemma_lex_lt_extend, lemma_lex_lt_without_prefix,
    lemma_padded_text_order, lemma_pow10_values, lex_lt, padded_text, push_padded,
    starts_with_at, substring, to_chars,
};
use vstd::prelude::*;
use vstd::string::StringExecFns;
use vstd::utf8::encode_utf8;

verus! {

/// The number of digits that a timestamp is written with in a key.
pub const TIMESTAMP_WIDTH: u8 = 13;

/// The first timestamp that does not fit a key: ten to the thirteenth
/// milliseconds, late in the year 2286.
pub const TIMESTAMP_LIMIT: u64 = 10_000_000_000_000;

/// The number of characters of an entry's text that its recall key holds.
pub const RECALL_PREFIX_LENGTH: usize = 16;

/// The families of records that share the table. The prefix of a key tells
/// which family the record under it belongs to.
#[derive(Clone, Copy, Debug, PartialEq, Eq, Structural)]
pub enum RecordKind {
    /// The profile of a user, under `user.<user_id>`.
    UserProfile,
    /// An entry of a journal, under `entry.<user_id>.<date>.<timestamp>`.
    JournalEntry,
    /// An entry as the recall index holds it, under `food.<text>`.
    RecallIndex,
}

/// What the keys of a family begin with.
pub open spec fn family_prefix(kind: RecordKind) -> Seq<char> {
    match kind {
        RecordKind::UserProfile => "user."@,
        RecordKind::JournalEntry => "entry."@,
        RecordKind::RecallIndex => "food."@,
    }
}

impl RecordKind {
    /// What the keys of the family begin with.
    pub fn prefix(&self) -> (prefix: String)
        ensures
            prefix@ == family_prefix(*self),
    {
        match self {
            RecordKind::UserProfile => String::from_str("user."),
            RecordKind::JournalEntry => String::from_str("entry."),
            RecordKind::RecallIndex => String::from_str("food."),
        }
    }

    /// The family that `key` belongs to: the one whose prefix the key begins
    /// with, if there is one. No key begins with the prefixes of two families.
    pub fn of_key(key: &str) -> (r: Option<RecordKind>)
        ensures
            r matches Some(kind) ==> family_prefix(kind).is_prefix_of(key@),
            forall|kind: RecordKind| #[trigger]
                family_prefix(kind).is_prefix_of(key@) ==> r == Some(kind),
    {
        let chars = to_chars(key);
        proof {
            reveal_strlit("user.");
            reveal_strlit("entry.");
            reveal_strlit("food.");
            assert forall|kind: RecordKind| #[trigger]
                family_prefix(kind).is_prefix_of(key@) implies key@.len() > 0 && key@[0]
                == family_prefix(kind)[0] by {
                let p = family_prefix(kind);
                assert(key@.subrange(0, p.len() as int)[0] == key@[0]);
            }
        }
        if starts_with_at(&chars, 0, &to_chars("user.")) {
            Some(RecordKind::UserProfile)
        } else if starts_with_at(&chars, 0, &to_chars("entry.")) {
            Some(RecordKind::JournalEntry)
        } else if starts_with_at(&chars, 0, &to_chars("food.")) {
            Some(RecordKind::RecallIndex)
        } else {
            None
        }
    }
}

/// Whether `id` can name a user: it does not contain the separator.
pub open spec fn is_user_id(id: Seq<char>) -> bool {
    !id.contains('.')
}

/// Whether `timestamp` fits the thirteen digits of a key.
pub open spec fn is_timestamp(timestamp: u64) -> bool {
    timestamp < TIMESTAMP_LIMIT
}

/// The key of the profile of the user `id`.
pub open spec fn user_key_text(id: Seq<char>) -> Seq<char> {
    "user."@ + id
}

/// What the keys of all journal entries of the user `id` begin with.
pub open spec fn entry_prefix_text(id: Seq<char>) -> Seq<char> {
    "entry."@ + id + seq!['.']
}

/// The identifier of an entry within the journal of its user: the date and
/// the timestamp.
pub open spec fn entry_id_text(date: YearMonthDay, timestamp: u64) -> Seq<char> {
    iso_date_text(date) + seq!['.'] + padded_text(timestamp as nat, TIMESTAMP_WIDTH as nat)
}

/// The key of the journal entry that the user `id` posted on `date` at
/// `timestamp`.
pub open spec fn entry_key_text(id: Seq<char>, date: YearMonthDay, timestamp: u64) -> Seq<char> {
    entry_prefix_text(id) + entry_id_text(date, timestamp)
}

/// The recall key of an entry with the given text.
pub open spec fn recall_key_text(text: Seq<char>) -> Seq<char> {
    "food."@ + text.take(RECALL_PREFIX_LENGTH as int)
}

/// What the keys of all user profiles begin with.
pub fn users_prefix() -> (prefix: String)
    ensures
        prefix@ == "user."@,
{
    RecordKind::UserProfile.prefix()
}

/// The key of the profile of `user_id`. An identifier that contains the
/// separator is refused.
pub fn user_key(user_id: &str) -> (r: Result<String, FjError>)
    ensures
        r matches Ok(key) ==> is_user_id(user_id@) && key@ == user_key_text(user_id@),
        r matches Err(e) ==> !is_user_id(user_id@) && e.kind == ErrorKind::InvalidInput,
{
    if contains_char(user_id, '.') {
        return Err(FjError::new(ErrorKind::InvalidInput));
    }
    let mut key = String::from_str("user.");
    key.append(user_id);
    Ok(key)
}

/// What the keys of all journal entries of `user_id` begin with. An
/// identifier that contains the separator is refused.
pub fn entry_prefix(user_id: &str) -> (r: Result<String, FjError>)
    ensures
        r matches Ok(prefix) ==> is_user_id(user_id@) && prefix@ == entry_prefix_text(user_id@),
        r matches Err(e) ==> !is_user_id(user_id@) && e.kind == ErrorKind::InvalidInput,
{
    if contains_char(user_id, '.') {
        return Err(FjError::new(ErrorKind::InvalidInput));
    }
    let mut prefix = String::from_str("entry.");
    prefix.append(user_id);
    prefix.push('.');
    Ok(prefix)
}

/// The identifier of the entry posted on `date` at `timestamp`. A timestamp
/// of more than thirteen digits is refused.
pub fn entry_id(date: &CivilDate, timestamp: u64) -> (r: Result<String, FjError>)
    ensures
        is_calendar_date(date@),
        r matches Ok(id) ==> is_timestamp(timestamp) && id@ == entry_id_text(date@, timestamp),
        r matches Err(e) ==> !is_timestamp(timestamp) && e.kind == ErrorKind::InvalidInput,
{
    let mut id = date.to_text();
    if timestamp >= TIMESTAMP_LIMIT {
        return Err(FjError::new(ErrorKind::InvalidInput));
    }
    id.push('.');
    push_padded(&mut id, timestamp, TIMESTAMP_WIDTH);
    Ok(id)
}

/// The key of the journal entry that `user_id` posted on `date` at
/// `timestamp`. An identifier that contains the separator and a timestamp of
/// more than thirteen digits are refused.
pub fn entry_key(user_id: &str, date: &CivilDate, timestamp: u64) -> (r: Result<String, FjError>)
    ensures
        is_calendar_date(date@),
        r matches Ok(key) ==> {
            &&& is_user_id(user_id@)
            &&& is_timestamp(timestamp)
            &&& key@ == entry_key_text(user_id@, date@, timestamp)
        },
        r matches Err(e) ==> {
            &&& !(is_user_id(user_id@) && is_timestamp(timestamp))
            &&& e.kind == ErrorKind::InvalidInput
        },
{
    let id = match entry_id(date, timestamp) {
        Ok(id) => id,
        Err(e) => { return Err(e); },
    };
    let mut key = match entry_prefix(user_id) {
        Ok(prefix) => prefix,
        Err(e) => { return Err(e); },
    };
    key.append(id.as_str());
    Ok(key)
}

/// The recall key of an entry with the given text: the family prefix and the
/// first sixteen characters of the text. A shorter text is refused.
pub fn recall_key(text: &str) -> (r: Result<String, FjError>)
    ensures
        r matches Ok(key) ==> text@.len() >= RECALL_PREFIX_LENGTH && key@ == recall_key_text(
            text@,
        ),
        r matches Err(e) ==> text@.len() < RECALL_PREFIX_LENGTH && e.kind
            == ErrorKind::InvalidInput,
{
    let chars = to_chars(text);
    if chars.len() < RECALL_PREFIX_LENGTH {
        return Err(FjError::new(ErrorKind::InvalidInput));
    }
    let head = substring(&chars, 0, RECALL_PREFIX_LENGTH);
    let mut key = String::from_str("food.");
    key.append(head.as_str());
    Ok(key)
}

/// The identifier of the entry stored under `key` in the journal of
/// `user_id`: what follows the prefix of that journal. A key that does not
/// begin with the prefix, and an identifier that contains the separator, are
/// refused.
pub fn entry_id_from_key(key: &str, user_id: &str) -> (r: Result<String, FjError>)
    ensures
        r matches Ok(id) ==> is_user_id(user_id@) && key@ == entry_prefix_text(user_id@) + id@,
        r matches Err(e) ==> e.kind == ErrorKind::InvalidInput && !(is_user_id(user_id@)
            && entry_prefix_text(user_id@).is_prefix_of(key@)),
{
    let prefix = match entry_prefix(user_id) {
        Ok(prefix) => prefix,
        Err(e) => { return Err(e); },
    };
    let prefix_chars = to_chars(prefix.as_str());
    let key_chars = to_chars(key);
    if !starts_with_at(&key_chars, 0, &prefix_chars) {
        return Err(FjError::new(ErrorKind::InvalidInput));
    }
    let id = substring(&key_chars, prefix_chars.len(), key_chars.len());
    assert(key@ == prefix@ + id@);
    Ok(id)
}

/// The identifier of the user whose profile is stored under `key`. A key that
/// is not the key of a profile is refused.
pub fn user_id_from_key(key: &str) -> (r: Result<String, FjError>)
    ensures
        r matches Ok(id) ==> is_user_id(id@) && key@ == user_key_text(id@),
        r matches Err(e) ==> e.kind == ErrorKind::InvalidInput && forall|id: Seq<char>|
            is_user_id(id) ==> key@ != #[trigger] user_key_text(id),
{
    let prefix = to_chars("user.");
    let key_chars = to_chars(key);
    if !starts_with_at(&key_chars, 0, &prefix) {
        proof {
            assert forall|id: Seq<char>| key@ != #[trigger] user_key_text(id) by {
                if key@ == user_key_text(id) {
                    assert(key@.subrange(0, "user."@.len() as int) == "user."@);
                }
            }
        }
        return Err(FjError::new(ErrorKind::InvalidInput));
    }
    let id = substring(&key_chars, prefix.len(), key_chars.len());
    assert(key@ == "user."@ + id@);
    if contains_char(id.as_str(), '.') {
        proof {
            assert forall|other: Seq<char>| is_user_id(other) implies key@ != #[trigger] user_key_text(
                other,
            ) by {
                if key@ == user_key_text(other) {
                    assert(key@.skip("user."@.len() as int) == other);
                    assert(key@.skip("user."@.len() as int) == id@);
                }
            }
        }
        return Err(FjError::new(ErrorKind::InvalidInput));
    }
    Ok(id)
}

/// No text sorts before itself.
pub proof fn lemma_lex_lt_irreflexive(a: Seq<char>)
    ensures
        !lex_lt(a, a),
{
}

/// The identifiers of entries sort by day and, within a day, by timestamp.
pub proof fn lemma_entry_id_order(d1: YearMonthDay, t1: u64, d2: YearMonthDay, t2: u64)
    requires
        is_calendar_date(d1),
        is_calendar_date(d2),
        is_timestamp(t1),
        is_timestamp(t2),
        date_lt(d1, d2) || (d1 == d2 && t1 < t2),
    ensures
        lex_lt(entry_id_text(d1, t1), entry_id_text(d2, t2)),
{
    lemma_pow10_values();
    let dot = seq!['.'];
    let a = iso_date_text(d1);
    let b = iso_date_text(d2);
    let x = padded_text(t1 as nat, 13);
    let y = padded_text(t2 as nat, 13);
    lemma_iso_date_text_parts(a, 0, d1);
    lemma_iso_date_text_parts(b, 0, d2);
    if date_lt(d1, d2) {
        lemma_iso_date_text_order(d1, d2);
        lemma_lex_lt_extend(a, b, dot + x, dot + y);
        assert(a + dot + x == a + (dot + x));
        assert(b + dot + y == b + (dot + y));
    } else {
        lemma_padded_text_order(t1 as nat, t2 as nat, 13);
        lemma_lex_lt_common_prefix(a + dot, x, y);
    }
}

/// Key ordering: the entries of one user sort by day and, within a day, by
/// timestamp. A scan over the journal of a user therefore yields the entries
/// in the order in which they were posted.
pub proof fn lemma_entry_key_order(
    id: Seq<char>,
    d1: YearMonthDay,
    t1: u64,
    d2: YearMonthDay,
    t2: u64,
)
    requires
        is_calendar_date(d1),
        is_calendar_date(d2),
        is_timestamp(t1),
        is_timestamp(t2),
        date_lt(d1, d2) || (d1 == d2 && t1 < t2),
    ensures
        lex_lt(entry_key_text(id, d1, t1), entry_key_text(id, d2, t2)),
{
    lemma_entry_id_order(d1, t1, d2, t2);
    lemma_lex_lt_common_prefix(
        entry_prefix_text(id),
        entry_id_text(d1, t1),
        entry_id_text(d2, t2),
    );
}

/// The keys of profiles sort as the identifiers of their users do, and the
/// keys of one user's entries as the identifiers of the entries do: a listing
/// in the order of the keys is a listing in the order of the identifiers.
pub proof fn lemma_keys_sort_as_identifiers(id: Seq<char>, a: Seq<char>, b: Seq<char>)
    ensures
        lex_lt(user_key_text(a), user_key_text(b)) <==> lex_lt(a, b),
        lex_lt(entry_prefix_text(id) + a, entry_prefix_text(id) + b) <==> lex_lt(a, b),
{
    if lex_lt(a, b) {
        lemma_lex_lt_common_prefix("user."@, a, b);
        lemma_lex_lt_common_prefix(entry_prefix_text(id), a, b);
    }
    if lex_lt(user_key_text(a), user_key_text(b)) {
        lemma_lex_lt_without_prefix("user."@, a, b);
    }
    if lex_lt(entry_prefix_text(id) + a, entry_prefix_text(id) + b) {
        lemma_lex_lt_without_prefix(entry_prefix_text(id), a, b);
    }
}

/// Key ordering as the storage engine sees it: the UTF-8 bytes of the keys
/// of one user's entries, compared byte by byte, sort by day and, within a
/// day, by timestamp, whatever characters the identifier of the user holds.
pub proof fn lemma_entry_key_byte_order(
    id: Seq<char>,
    d1: YearMonthDay,
    t1: u64,
    d2: YearMonthDay,
    t2: u64,
)
    requires
        is_calendar_date(d1),
        is_calendar_date(d2),
        is_timestamp(t1),
        is_timestamp(t2),
        date_lt(d1, d2) || (d1 == d2 && t1 < t2),
    ensures
        bytes_lt(
            encode_utf8(entry_key_text(id, d1, t1)),
            encode_utf8(entry_key_text(id, d2, t2)),
        ),
{
    lemma_entry_key_order(id, d1, t1, d2, t2);
    lemma_utf8_order(entry_key_text(id, d1, t1), entry_key_text(id, d2, t2));
}

/// Listings in the order of the table: the engine yields the profiles in the
/// order of the identifiers of their users, and the entries of one user in
/// the order of the identifiers of the entries.
pub proof fn lemma_table_order_is_identifier_order(id: Seq<char>, a: Seq<char>, b: Seq<char>)
    ensures
        bytes_lt(encode_utf8(user_key_text(a)), encode_utf8(user_key_text(b))) <==> lex_lt(a, b),
        bytes_lt(
            encode_utf8(entry_prefix_text(id) + a),
            encode_utf8(entry_prefix_text(id) + b),
        ) <==> lex_lt(a, b),
{
    lemma_keys_sort_as_identifiers(id, a, b);
    lemma_utf8_order(user_key_text(a), user_key_text(b));
    lemma_utf8_order(entry_prefix_text(id) + a, entry_prefix_text(id) + b);
}

/// Within the journal of one user, different days or timestamps have
/// different keys.
pub proof fn lemma_entry_key_injective(
    id: Seq<char>,
    d1: YearMonthDay,
    t1: u64,
    d2: YearMonthDay,
    t2: u64,
)
    requires
        is_calendar_date(d1),
        is_calendar_date(d2),
        is_timestamp(t1),
        is_timestamp(t2),
        entry_key_text(id, d1, t1) == entry_key_text(id, d2, t2),
    ensures
        d1 == d2,
        t1 == t2,
{
    lemma_lex_lt_irreflexive(entry_key_text(id, d1, t1));
    if date_lt(d1, d2) || (d1 == d2 && t1 < t2) {
        lemma_entry_key_order(id, d1, t1, d2, t2);
    } else if date_lt(d2, d1) || (d1 == d2 && t2 < t1) {
        lemma_entry_key_order(id, d2, t2, d1, t1);
    }
}

/// Prefix correctness: the three record families do not overlap. Every key of
/// a profile begins with the prefix of the profiles and no key of an entry or
/// of the recall index does; every key of an entry begins with the prefix of
/// its user's journal and no key of a profile or of the recall index does.
pub proof fn lemma_families_are_disjoint(
    id: Seq<char>,
    other: Seq<char>,
    date: YearMonthDay,
    timestamp: u64,
    text: Seq<char>,
)
    ensures
        "user."@.is_prefix_of(user_key_text(id)),
        !"user."@.is_prefix_of(entry_key_text(id, date, timestamp)),
        !"user."@.is_prefix_of(recall_key_text(text)),
        entry_prefix_text(id).is_prefix_of(entry_key_text(id, date, timestamp)),
        !entry_prefix_text(id).is_prefix_of(user_key_text(other)),
        !entry_prefix_text(id).is_prefix_of(recall_key_text(text)),
        user_key_text(id) != entry_key_text(other, date, timestamp),
        user_key_text(id) != recall_key_text(text),
        entry_key_text(id, date, timestamp) != recall_key_text(text),
        family_prefix(RecordKind::UserProfile).is_prefix_of(user_key_text(id)),
        family_prefix(RecordKind::JournalEntry).is_prefix_of(entry_key_text(id, date, timestamp)),
        family_prefix(RecordKind::RecallIndex).is_prefix_of(recall_key_text(text)),
{
    reveal_strlit("user.");
    reveal_strlit("entry.");
    reveal_strlit("food.");
    let user = user_key_text(id);
    let entry = entry_key_text(id, date, timestamp);
    let entry_of_other = entry_key_text(other, date, timestamp);
    let recall = recall_key_text(text);
    let prefix = entry_prefix_text(id);
    assert("user."@.len() == 5 && "entry."@.len() == 6 && "food."@.len() == 5);
    assert(user[0] == 'u' && user_key_text(other)[0] == 'u');
    assert(recall[0] == 'f');
    assert(prefix[0] == 'e');
    assert(entry[0] == 'e' && entry_of_other[0] == 'e');
    assert(user.subrange(0, 5) == "user."@);
    assert(entry.subrange(0, prefix.len() as int) == prefix);
    assert(entry.subrange(0, 6) == "entry."@);
    assert(recall.subrange(0, 5) == "food."@);
    assert("user."@[0] == 'u');
    if "user."@.is_prefix_of(entry) {
        assert(entry.subrange(0, 5)[0] == entry[0]);
    }
    if "user."@.is_prefix_of(recall) {
        assert(recall.subrange(0, 5)[0] == recall[0]);
    }
    if prefix.is_prefix_of(user_key_text(other)) {
        assert(user_key_text(other).subrange(0, prefix.len() as int)[0] == user_key_text(other)[0]);
    }
    if prefix.is_prefix_of(recall) {
        assert(recall.subrange(0, prefix.len() as int)[0] == recall[0]);
    }
}

/// The prefix of one user's journal selects no entry of another user.
pub proof fn lemma_entry_prefix_isolates_users(
    id: Seq<char>,
    other: Seq<char>,
    date: YearMonthDay,
    timestamp: u64,
)
    requires
        is_user_id(id),
        is_user_id(other),
        entry_prefix_text(id).is_prefix_of(entry_key_text(other, date, timestamp)),
    ensures
        id == other,
{
    let head = "entry."@;
    let n = head.len() as int;
    let prefix = entry_prefix_text(id);
    let key = entry_key_text(other, date, timestamp);
    let rest = entry_id_text(date, timestamp);
    assert(key == head + other + seq!['.'] + rest);
    assert forall|k: int| 0 <= k < prefix.len() implies prefix[k] == key[k] by {
        assert(key.subrange(0, prefix.len() as int)[k] == key[k]);
    }
    if id.len() < other.len() {
        assert(prefix[n + id.len()] == '.');
        assert(key[n + id.len()] == other[id.len() as int]);
        assert(other.contains('.'));
    } else if id.len() > other.len() {
        assert(key[n + other.len()] == '.');
        assert(prefix[n + other.len()] == id[other.len() as int]);
        assert(id.contains('.'));
    } else {
        assert forall|k: int| 0 <= k < id.len() implies id[k] == other[k] by {
            assert(prefix[n + k] == id[k]);
            assert(key[n + k] == other[k]);
        }
        assert(id =~= other);
    }
}

/// Recall-index collision: texts that agree in their first sixteen characters
/// have the same recall key, so the later post overwrites the earlier one.
pub proof fn lemma_recall_keys_collide(a: Seq<char>, b: Seq<char>)
    requires
        a.take(RECALL_PREFIX_LENGTH as int) == b.take(RECALL_PREFIX_LENGTH as int),
    ensures
        recall_key_text(a) == recall_key_text(b),
{
}

} // verus!
