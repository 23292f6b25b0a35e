//! The stored records and their codec.
//!
//! A record is a flat object keyed by field names. Writing a record produces
//! its fields in a fixed order. Reading looks each field up by its name: the
//! order does not matter, and members with other names are passed over, so
//! that a record written by a later version of the schema can still be read.
//! A name that the record needs has to occur exactly once.

use crate::date::{
    is_calendar_date, iso_date_text, lemma_iso_date_text_injective, CivilDate, YearMonthDay,
};
use crate::error::{ErrorKind, FjError};
use crate::object::{
    are_fields, fields_view, object_text, read_object, write_object, Field, FieldView, Value,
    ValueView,
};
use crate::text::{decimal_text, lemma_decimal_text};
use crate::token::{is_numeral, lemma_decimal_text_is_numeral, Numeral};
use vstd::prelude::*;
use vstd::string::StringExecFns;

verus! {

/// Whether `i` is the one place where `fields` has a member named `name`.
pub open spec fn names_once(fields: Seq<FieldView>, name: Seq<char>, i: int) -> bool {
    &&& 0 <= i < fields.len()
    &&& fields[i].name == name
    &&& forall|j: int| 0 <= j < fields.len() && (#[trigger] fields[j]).name == name ==> j == i
}

/// Whether `fields` has exactly one member named `name`, and that member has
/// the value `value`.
pub open spec fn has_value(fields: Seq<FieldView>, name: Seq<char>, value: ValueView) -> bool {
    exists|i: int| #[trigger] names_once(fields, name, i) && fields[i].value == value
}

/// Whether `fields` has exactly one member named `name`, the number `n`.
pub open spec fn has_number(fields: Seq<FieldView>, name: Seq<char>, n: u64) -> bool {
    has_value(fields, name, ValueView::Number(decimal_text(n as nat)))
}

/// A name has at most one value in a list of fields.
pub proof fn lemma_has_value_unique(
    fields: Seq<FieldView>,
    name: Seq<char>,
    a: ValueView,
    b: ValueView,
)
    requires
        has_value(fields, name, a),
        has_value(fields, name, b),
    ensures
        a == b,
{
    let i = choose|i: int| #[trigger] names_once(fields, name, i) && fields[i].value == a;
    let j = choose|j: int| #[trigger] names_once(fields, name, j) && fields[j].value == b;
    assert(fields[j].name == name);
}

/// Different numbers have different numerals.
pub proof fn lemma_decimal_text_injective(a: nat, b: nat)
    requires
        decimal_text(a) == decimal_text(b),
    ensures
        a == b,
{
    lemma_decimal_text(a);
    lemma_decimal_text(b);
}

/// The place of the one member named `name`, where there is exactly one.
pub fn find_field(fields: &Vec<Field>, name: &str) -> (r: Option<usize>)
    ensures
        r matches Some(i) ==> names_once(fields_view(fields@), name@, i as int),
        r is None ==> forall|i: int| !names_once(fields_view(fields@), name@, i),
{
    let ghost all = fields_view(fields@);
    let wanted = String::from_str(name);
    let mut found: Option<usize> = None;
    let mut k: usize = 0;
    while k < fields.len()
        invariant
            0 <= k <= fields.len(),
            all == fields_view(fields@),
            wanted@ == name@,
            found matches Some(i) ==> i < k && all[i as int].name == name@ && forall|j: int|
                0 <= j < k && (#[trigger] all[j]).name == name@ ==> j == i,
            found is None ==> forall|j: int| 0 <= j < k ==> (#[trigger] all[j]).name != name@,
        decreases fields.len() - k,
    {
        if fields[k].name == wanted {
            assert(all[k as int].name == name@);
            match found {
                Some(i) => {
                    assert forall|x: int| !names_once(all, name@, x) by {
                        if names_once(all, name@, x) {
                            assert(all[i as int].name == name@);
                            assert(all[k as int].name == name@);
                        }
                    }
                    return None;
                },
                None => {
                    found = Some(k);
                },
            }
        }
        k += 1;
    }
    found
}

/// The string that the one member named `name` holds.
pub fn text_of(fields: &Vec<Field>, name: &str) -> (r: Option<String>)
    ensures
        r matches Some(s) ==> has_value(fields_view(fields@), name@, ValueView::Text(s@)),
        forall|t: Seq<char>|
            #![trigger has_value(fields_view(fields@), name@, ValueView::Text(t))]
            has_value(fields_view(fields@), name@, ValueView::Text(t)) ==> (r matches Some(s)
                && s@ == t),
{
    let ghost all = fields_view(fields@);
    match find_field(fields, name) {
        Some(i) => {
            proof {
                assert forall|t: Seq<char>|
                    #![trigger has_value(all, name@, ValueView::Text(t))]
                    has_value(all, name@, ValueView::Text(t)) implies all[i as int].value
                    == ValueView::Text(t) by {
                    let j = choose|j: int| #[trigger]
                        names_once(all, name@, j) && all[j].value == ValueView::Text(t);
                    assert(all[j].name == name@);
                }
            }
            match &fields[i].value {
                Value::Text(s) => Some(s.clone()),
                Value::Number(_) => None,
            }
        },
        None => None,
    }
}

/// The numeral that the one member named `name` holds.
pub fn numeral_of(fields: &Vec<Field>, name: &str) -> (r: Option<Numeral>)
    ensures
        r matches Some(n) ==> has_value(fields_view(fields@), name@, ValueView::Number(n@))
            && is_numeral(n@),
        forall|t: Seq<char>|
            #![trigger has_value(fields_view(fields@), name@, ValueView::Number(t))]
            has_value(fields_view(fields@), name@, ValueView::Number(t)) ==> (r matches Some(n)
                && n@ == t),
{
    let ghost all = fields_view(fields@);
    match find_field(fields, name) {
        Some(i) => {
            proof {
                assert forall|t: Seq<char>|
                    #![trigger has_value(all, name@, ValueView::Number(t))]
                    has_value(all, name@, ValueView::Number(t)) implies all[i as int].value
                    == ValueView::Number(t) by {
                    let j = choose|j: int| #[trigger]
                        names_once(all, name@, j) && all[j].value == ValueView::Number(t);
                    assert(all[j].name == name@);
                }
            }
            match &fields[i].value {
                Value::Text(_) => None,
                Value::Number(n) => {
                    let _ = n.as_str();
                    Some(n.clone())
                },
            }
        },
        None => None,
    }
}

/// The number that the one member named `name` holds.
pub fn number_of(fields: &Vec<Field>, name: &str) -> (r: Option<u64>)
    ensures
        r matches Some(n) ==> has_number(fields_view(fields@), name@, n),
        forall|n: u64| #[trigger] has_number(fields_view(fields@), name@, n) ==> r == Some(n),
{
    match numeral_of(fields, name) {
        Some(numeral) => numeral.to_u64(),
        None => None,
    }
}

/// The date that the one member named `name` holds.
pub fn date_of(fields: &Vec<Field>, name: &str) -> (r: Option<CivilDate>)
    ensures
        r matches Some(d) ==> is_calendar_date(d@) && has_value(
            fields_view(fields@),
            name@,
            ValueView::Text(iso_date_text(d@)),
        ),
        forall|x: YearMonthDay|
            is_calendar_date(x) && has_value(
                fields_view(fields@),
                name@,
                ValueView::Text(#[trigger] iso_date_text(x)),
            ) ==> (r matches Some(d) && d@ == x),
{
    match text_of(fields, name) {
        Some(s) => CivilDate::parse(s.as_str()),
        None => None,
    }
}

/// The member named `name` with the string `value`.
pub open spec fn text_field(name: Seq<char>, value: Seq<char>) -> FieldView {
    FieldView { name, value: ValueView::Text(value) }
}

/// The member named `name` with the number `n`.
pub open spec fn number_field(name: Seq<char>, n: u64) -> FieldView {
    FieldView { name, value: ValueView::Number(decimal_text(n as nat)) }
}

/// The member named `name` with the string `value`.
pub fn make_text_field(name: &str, value: &str) -> (f: Field)
    ensures
        f@ == text_field(name@, value@),
{
    Field { name: String::from_str(name), value: Value::Text(String::from_str(value)) }
}

/// The member named `name` with the number `n`.
pub fn make_number_field(name: &str, n: u64) -> (f: Field)
    ensures
        f@ == number_field(name@, n),
{
    Field { name: String::from_str(name), value: Value::Number(Numeral::from_u64(n)) }
}

/// The profile of a user, stored under the key of the user. Its
/// `current_date` is the day cursor: the day that the user's journal is open
/// for.
#[derive(Debug, PartialEq, Eq)]
pub struct UserDbRecord {
    pub image: String,
    pub display_name: String,
    pub target_calories: u64,
    pub target_fat: u64,
    pub target_protein: u64,
    pub target_carbohydrate: u64,
    pub current_date: CivilDate,
}

/// The profile of a user, by the name of the entity.
pub type UserProfile = UserDbRecord;

/// What a `UserDbRecord` stands for.
pub struct UserView {
    pub image: Seq<char>,
    pub display_name: Seq<char>,
    pub target_calories: u64,
    pub target_fat: u64,
    pub target_protein: u64,
    pub target_carbohydrate: u64,
    pub current_date: YearMonthDay,
}

impl View for UserDbRecord {
    type V = UserView;

    open spec fn view(&self) -> UserView {
        UserView {
            image: self.image@,
            display_name: self.display_name@,
            target_calories: self.target_calories,
            target_fat: self.target_fat,
            target_protein: self.target_protein,
            target_carbohydrate: self.target_carbohydrate,
            current_date: self.current_date@,
        }
    }
}

/// Whether `u` is a profile that can be stored: its day cursor is a calendar
/// date.
pub open spec fn is_user(u: UserView) -> bool {
    is_calendar_date(u.current_date)
}

/// The members that a profile is written with, in their order.
pub open spec fn user_fields(u: UserView) -> Seq<FieldView> {
    seq![
        text_field("image"@, u.image),
        text_field("display_name"@, u.display_name),
        number_field("target_calories"@, u.target_calories),
        number_field("target_fat"@, u.target_fat),
        number_field("target_protein"@, u.target_protein),
        number_field("target_carbohydrate"@, u.target_carbohydrate),
        text_field("current_date"@, iso_date_text(u.current_date)),
    ]
}

/// The text that a profile is stored as.
pub open spec fn user_record_text(u: UserView) -> Seq<char> {
    object_text(user_fields(u))
}

/// Whether `fields` holds each member of a profile exactly once, with the
/// values of `u`.
pub open spec fn describes_user(fields: Seq<FieldView>, u: UserView) -> bool {
    &&& has_value(fields, "image"@, ValueView::Text(u.image))
    &&& has_value(fields, "display_name"@, ValueView::Text(u.display_name))
    &&& has_number(fields, "target_calories"@, u.target_calories)
    &&& has_number(fields, "target_fat"@, u.target_fat)
    &&& has_number(fields, "target_protein"@, u.target_protein)
    &&& has_number(fields, "target_carbohydrate"@, u.target_carbohydrate)
    &&& has_value(fields, "current_date"@, ValueView::Text(iso_date_text(u.current_date)))
    &&& is_calendar_date(u.current_date)
}

/// Whether `text` is a record that holds the profile `u`.
pub open spec fn user_in_text(text: Seq<char>, u: UserView) -> bool {
    exists|fields: Seq<FieldView>|
        are_fields(fields) && text == #[trigger] object_text(fields) && describes_user(fields, u)
}

/// The names of the members of a profile are told apart by their lengths,
/// and the two of length twelve by their first characters.
pub proof fn lemma_user_field_names()
    ensures
        "image"@.len() == 5,
        "display_name"@.len() == 12,
        "target_calories"@.len() == 15,
        "target_fat"@.len() == 10,
        "target_protein"@.len() == 14,
        "target_carbohydrate"@.len() == 19,
        "current_date"@.len() == 12,
        "display_name"@[0] == 'd',
        "current_date"@[0] == 'c',
{
    reveal_strlit("image");
    reveal_strlit("display_name");
    reveal_strlit("target_calories");
    reveal_strlit("target_fat");
    reveal_strlit("target_protein");
    reveal_strlit("target_carbohydrate");
    reveal_strlit("current_date");
}

/// The members that a profile is written with hold that profile.
pub proof fn lemma_user_fields(u: UserView)
    requires
        is_user(u),
    ensures
        are_fields(user_fields(u)),
        describes_user(user_fields(u), u),
        user_in_text(user_record_text(u), u),
{
    let fields = user_fields(u);
    lemma_user_field_names();
    lemma_decimal_text_is_numeral(u.target_calories as nat);
    lemma_decimal_text_is_numeral(u.target_fat as nat);
    lemma_decimal_text_is_numeral(u.target_protein as nat);
    lemma_decimal_text_is_numeral(u.target_carbohydrate as nat);
    assert(names_once(fields, "image"@, 0));
    assert(names_once(fields, "display_name"@, 1));
    assert(names_once(fields, "target_calories"@, 2));
    assert(names_once(fields, "target_fat"@, 3));
    assert(names_once(fields, "target_protein"@, 4));
    assert(names_once(fields, "target_carbohydrate"@, 5));
    assert(names_once(fields, "current_date"@, 6));
}

/// A list of fields holds at most one profile.
pub proof fn lemma_describes_user_unique(fields: Seq<FieldView>, a: UserView, b: UserView)
    requires
        describes_user(fields, a),
        describes_user(fields, b),
    ensures
        a == b,
{
    lemma_has_value_unique(fields, "image"@, ValueView::Text(a.image), ValueView::Text(b.image));
    lemma_has_value_unique(
        fields,
        "display_name"@,
        ValueView::Text(a.display_name),
        ValueView::Text(b.display_name),
    );
    lemma_has_number_unique(fields, "target_calories"@, a.target_calories, b.target_calories);
    lemma_has_number_unique(fields, "target_fat"@, a.target_fat, b.target_fat);
    lemma_has_number_unique(fields, "target_protein"@, a.target_protein, b.target_protein);
    lemma_has_number_unique(
        fields,
        "target_carbohydrate"@,
        a.target_carbohydrate,
        b.target_carbohydrate,
    );
    lemma_has_value_unique(
        fields,
        "current_date"@,
        ValueView::Text(iso_date_text(a.current_date)),
        ValueView::Text(iso_date_text(b.current_date)),
    );
    lemma_iso_date_text_injective(a.current_date, b.current_date);
}

/// A name has at most one number in a list of fields.
pub proof fn lemma_has_number_unique(fields: Seq<FieldView>, name: Seq<char>, a: u64, b: u64)
    requires
        has_number(fields, name, a),
        has_number(fields, name, b),
    ensures
        a == b,
{
    lemma_has_value_unique(
        fields,
        name,
        ValueView::Number(decimal_text(a as nat)),
        ValueView::Number(decimal_text(b as nat)),
    );
    lemma_decimal_text_injective(a as nat, b as nat);
}

/// The text that the profile `u` is stored as.
pub fn encode_user(u: &UserDbRecord) -> (text: String)
    ensures
        text@ == user_record_text(u@),
        is_user(u@),
{
    let date = u.current_date.to_text();
    let mut fields: Vec<Field> = Vec::new();
    fields.push(make_text_field("image", u.image.as_str()));
    fields.push(make_text_field("display_name", u.display_name.as_str()));
    fields.push(make_number_field("target_calories", u.target_calories));
    fields.push(make_number_field("target_fat", u.target_fat));
    fields.push(make_number_field("target_protein", u.target_protein));
    fields.push(make_number_field("target_carbohydrate", u.target_carbohydrate));
    fields.push(make_text_field("current_date", date.as_str()));
    assert(fields_view(fields@) == user_fields(u@));
    write_object(&fields)
}

/// The profile that `text` holds. It succeeds exactly where `text` is a
/// record in which each member of a profile occurs once with a value of its
/// kind, and the profile is the one with those values; any other text is a
/// corrupt record. In particular it gives back every profile from the text
/// that `encode_user` wrote for it.
pub fn decode_user(text: &str) -> (r: Result<UserDbRecord, FjError>)
    ensures
        r matches Ok(u) ==> user_in_text(text@, u@),
        forall|x: UserView| #[trigger] user_in_text(text@, x) ==> (r matches Ok(u) && u@ == x),
        forall|x: UserView|
            is_user(x) && text@ == #[trigger] user_record_text(x) ==> (r matches Ok(u) && u@ == x),
        r matches Err(e) ==> e.kind == ErrorKind::CorruptRecord,
{
    proof {
        assert forall|x: UserView|
            is_user(x) && text@ == #[trigger] user_record_text(x) implies user_in_text(
            text@,
            x,
        ) by {
            lemma_user_fields(x);
        }
    }
    let corrupt = FjError::new(ErrorKind::CorruptRecord);
    let fields = match read_object(text) {
        Some(fields) => fields,
        None => { return Err(corrupt); },
    };
    let ghost all = fields_view(fields@);
    proof {
        assert forall|x: UserView| #[trigger] user_in_text(text@, x) implies describes_user(
            all,
            x,
        ) by {
            let f = choose|f: Seq<FieldView>|
                are_fields(f) && text@ == #[trigger] object_text(f) && describes_user(f, x);
            assert(f == all);
        }
    }
    let image = match text_of(&fields, "image") {
        Some(s) => s,
        None => { return Err(corrupt); },
    };
    let display_name = match text_of(&fields, "display_name") {
        Some(s) => s,
        None => { return Err(corrupt); },
    };
    let target_calories = match number_of(&fields, "target_calories") {
        Some(n) => n,
        None => { return Err(corrupt); },
    };
    let target_fat = match number_of(&fields, "target_fat") {
        Some(n) => n,
        None => { return Err(corrupt); },
    };
    let target_protein = match number_of(&fields, "target_protein") {
        Some(n) => n,
        None => { return Err(corrupt); },
    };
    let target_carbohydrate = match number_of(&fields, "target_carbohydrate") {
        Some(n) => n,
        None => { return Err(corrupt); },
    };
    let current_date = match date_of(&fields, "current_date") {
        Some(d) => d,
        None => { return Err(corrupt); },
    };
    let user = UserDbRecord {
        image,
        display_name,
        target_calories,
        target_fat,
        target_protein,
        target_carbohydrate,
        current_date,
    };
    proof {
        assert(describes_user(all, user@));
        assert forall|x: UserView| #[trigger] user_in_text(text@, x) implies x == user@ by {
            lemma_describes_user_unique(all, x, user@);
        }
    }
    Ok(user)
}

/// The member named `name` with the numeral `n`.
pub open spec fn numeral_field(name: Seq<char>, n: Seq<char>) -> FieldView {
    FieldView { name, value: ValueView::Number(n) }
}

/// The member named `name` with the numeral `n`.
pub fn make_numeral_field(name: &str, n: &Numeral) -> (f: Field)
    ensures
        f@ == numeral_field(name@, n@),
        is_numeral(n@),
{
    let _ = n.as_str();
    Field { name: String::from_str(name), value: Value::Number(n.clone()) }
}

/// One entry of a user's food journal: what was eaten, how much of it, its
/// calories and macronutrients, and the time it was posted at in milliseconds
/// since the Unix epoch. An entry is written once and never changed.
#[derive(Debug, PartialEq, Eq)]
pub struct JournalEntry {
    pub text: String,
    pub quantity: Numeral,
    pub quantity_units: String,
    pub calories: u64,
    pub carbohydrate: u64,
    pub fat: u64,
    pub protein: u64,
    pub timestamp: u64,
}

/// What a `JournalEntry` stands for.
pub struct JournalEntryView {
    pub text: Seq<char>,
    pub quantity: Seq<char>,
    pub quantity_units: Seq<char>,
    pub calories: u64,
    pub carbohydrate: u64,
    pub fat: u64,
    pub protein: u64,
    pub timestamp: u64,
}

impl View for JournalEntry {
    type V = JournalEntryView;

    open spec fn view(&self) -> JournalEntryView {
        JournalEntryView {
            text: self.text@,
            quantity: self.quantity@,
            quantity_units: self.quantity_units@,
            calories: self.calories,
            carbohydrate: self.carbohydrate,
            fat: self.fat,
            protein: self.protein,
            timestamp: self.timestamp,
        }
    }
}

/// Whether `e` is an entry that can be stored: its quantity is a numeral.
pub open spec fn is_entry(e: JournalEntryView) -> bool {
    is_numeral(e.quantity)
}

/// The members that an entry is written with, in their order.
pub open spec fn entry_fields(e: JournalEntryView) -> Seq<FieldView> {
    seq![
        text_field("text"@, e.text),
        number_field("timestamp"@, e.timestamp),
        numeral_field("qty"@, e.quantity),
        text_field("qty_units"@, e.quantity_units),
        number_field("calories"@, e.calories),
        number_field("carbohydrate"@, e.carbohydrate),
        number_field("fat"@, e.fat),
        number_field("protein"@, e.protein),
    ]
}

/// The text that an entry is stored as.
pub open spec fn entry_record_text(e: JournalEntryView) -> Seq<char> {
    object_text(entry_fields(e))
}

/// Whether `fields` holds each member of an entry exactly once, with the
/// values of `e`.
pub open spec fn describes_entry(fields: Seq<FieldView>, e: JournalEntryView) -> bool {
    &&& has_value(fields, "text"@, ValueView::Text(e.text))
    &&& has_number(fields, "timestamp"@, e.timestamp)
    &&& has_value(fields, "qty"@, ValueView::Number(e.quantity))
    &&& has_value(fields, "qty_units"@, ValueView::Text(e.quantity_units))
    &&& has_number(fields, "calories"@, e.calories)
    &&& has_number(fields, "carbohydrate"@, e.carbohydrate)
    &&& has_number(fields, "fat"@, e.fat)
    &&& has_number(fields, "protein"@, e.protein)
}

/// Whether `text` is a record that holds the entry `e`.
pub open spec fn entry_in_text(text: Seq<char>, e: JournalEntryView) -> bool {
    exists|fields: Seq<FieldView>|
        are_fields(fields) && text == #[trigger] object_text(fields) && describes_entry(fields, e)
}

/// The names of the members of an entry are told apart by their lengths,
/// and those of equal length by their first characters.
pub proof fn lemma_entry_field_names()
    ensures
        "text"@.len() == 4,
        "timestamp"@.len() == 9,
        "qty"@.len() == 3,
        "qty_units"@.len() == 9,
        "calories"@.len() == 8,
        "carbohydrate"@.len() == 12,
        "fat"@.len() == 3,
        "protein"@.len() == 7,
        "timestamp"@[0] == 't',
        "qty_units"@[0] == 'q',
        "qty"@[0] == 'q',
        "fat"@[0] == 'f',
{
    reveal_strlit("text");
    reveal_strlit("timestamp");
    reveal_strlit("qty");
    reveal_strlit("qty_units");
    reveal_strlit("calories");
    reveal_strlit("carbohydrate");
    reveal_strlit("fat");
    reveal_strlit("protein");
}

/// The members that an entry is written with hold that entry.
pub proof fn lemma_entry_fields(e: JournalEntryView)
    requires
        is_entry(e),
    ensures
        are_fields(entry_fields(e)),
        describes_entry(entry_fields(e), e),
        entry_in_text(entry_record_text(e), e),
{
    let fields = entry_fields(e);
    lemma_entry_field_names();
    lemma_decimal_text_is_numeral(e.timestamp as nat);
    lemma_decimal_text_is_numeral(e.calories as nat);
    lemma_decimal_text_is_numeral(e.carbohydrate as nat);
    lemma_decimal_text_is_numeral(e.fat as nat);
    lemma_decimal_text_is_numeral(e.protein as nat);
    assert(names_once(fields, "text"@, 0));
    assert(names_once(fields, "timestamp"@, 1));
    assert(names_once(fields, "qty"@, 2));
    assert(names_once(fields, "qty_units"@, 3));
    assert(names_once(fields, "calories"@, 4));
    assert(names_once(fields, "carbohydrate"@, 5));
    assert(names_once(fields, "fat"@, 6));
    assert(names_once(fields, "protein"@, 7));
}

/// A list of fields holds at most one entry.
pub proof fn lemma_describes_entry_unique(
    fields: Seq<FieldView>,
    a: JournalEntryView,
    b: JournalEntryView,
)
    requires
        describes_entry(fields, a),
        describes_entry(fields, b),
    ensures
        a == b,
{
    lemma_has_value_unique(fields, "text"@, ValueView::Text(a.text), ValueView::Text(b.text));
    lemma_has_number_unique(fields, "timestamp"@, a.timestamp, b.timestamp);
    lemma_has_value_unique(
        fields,
        "qty"@,
        ValueView::Number(a.quantity),
        ValueView::Number(b.quantity),
    );
    lemma_has_value_unique(
        fields,
        "qty_units"@,
        ValueView::Text(a.quantity_units),
        ValueView::Text(b.quantity_units),
    );
    lemma_has_number_unique(fields, "calories"@, a.calories, b.calories);
    lemma_has_number_unique(fields, "carbohydrate"@, a.carbohydrate, b.carbohydrate);
    lemma_has_number_unique(fields, "fat"@, a.fat, b.fat);
    lemma_has_number_unique(fields, "protein"@, a.protein, b.protein);
}

/// The text that the entry `e` is stored as.
pub fn encode_entry(e: &JournalEntry) -> (text: String)
    ensures
        text@ == entry_record_text(e@),
        is_entry(e@),
{
    let mut fields: Vec<Field> = Vec::new();
    fields.push(make_text_field("text", e.text.as_str()));
    fields.push(make_number_field("timestamp", e.timestamp));
    fields.push(make_numeral_field("qty", &e.quantity));
    fields.push(make_text_field("qty_units", e.quantity_units.as_str()));
    fields.push(make_number_field("calories", e.calories));
    fields.push(make_number_field("carbohydrate", e.carbohydrate));
    fields.push(make_number_field("fat", e.fat));
    fields.push(make_number_field("protein", e.protein));
    assert(fields_view(fields@) == entry_fields(e@));
    write_object(&fields)
}

/// The entry that `text` holds. It succeeds exactly where `text` is a record
/// in which each member of an entry occurs once with a value of its kind, and
/// the entry is the one with those values; any other text is a corrupt
/// record. In particular it gives back every entry from the text that
/// `encode_entry` wrote for it.
pub fn decode_entry(text: &str) -> (r: Result<JournalEntry, FjError>)
    ensures
        r matches Ok(e) ==> entry_in_text(text@, e@) && is_entry(e@),
        forall|x: JournalEntryView|
            #[trigger] entry_in_text(text@, x) ==> (r matches Ok(e) && e@ == x),
        forall|x: JournalEntryView|
            is_entry(x) && text@ == #[trigger] entry_record_text(x) ==> (r matches Ok(e) && e@
                == x),
        r matches Err(e) ==> e.kind == ErrorKind::CorruptRecord,
{
    proof {
        assert forall|x: JournalEntryView|
            is_entry(x) && text@ == #[trigger] entry_record_text(x) implies entry_in_text(
            text@,
            x,
        ) by {
            lemma_entry_fields(x);
        }
    }
    let corrupt = FjError::new(ErrorKind::CorruptRecord);
    let fields = match read_object(text) {
        Some(fields) => fields,
        None => { return Err(corrupt); },
    };
    let ghost all = fields_view(fields@);
    proof {
        assert forall|x: JournalEntryView| #[trigger]
            entry_in_text(text@, x) implies describes_entry(all, x) by {
            let f = choose|f: Seq<FieldView>|
                are_fields(f) && text@ == #[trigger] object_text(f) && describes_entry(f, x);
            assert(f == all);
        }
    }
    let entry_text = match text_of(&fields, "text") {
        Some(s) => s,
        None => { return Err(corrupt); },
    };
    let timestamp = match number_of(&fields, "timestamp") {
        Some(n) => n,
        None => { return Err(corrupt); },
    };
    let quantity = match numeral_of(&fields, "qty") {
        Some(n) => n,
        None => { return Err(corrupt); },
    };
    let quantity_units = match text_of(&fields, "qty_units") {
        Some(s) => s,
        None => { return Err(corrupt); },
    };
    let calories = match number_of(&fields, "calories") {
        Some(n) => n,
        None => { return Err(corrupt); },
    };
    let carbohydrate = match number_of(&fields, "carbohydrate") {
        Some(n) => n,
        None => { return Err(corrupt); },
    };
    let fat = match number_of(&fields, "fat") {
        Some(n) => n,
        None => { return Err(corrupt); },
    };
    let protein = match number_of(&fields, "protein") {
        Some(n) => n,
        None => { return Err(corrupt); },
    };
    let entry = JournalEntry {
        text: entry_text,
        quantity,
        quantity_units,
        calories,
        carbohydrate,
        fat,
        protein,
        timestamp,
    };
    proof {
        assert(describes_entry(all, entry@));
        assert forall|x: JournalEntryView| #[trigger] entry_in_text(text@, x) implies x
            == entry@ by {
            lemma_describes_entry_unique(all, x, entry@);
        }
    }
    Ok(entry)
}

} // verus!
