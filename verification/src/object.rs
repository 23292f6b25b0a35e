//! Flat objects: the shape of every stored record.
//!
//! A record is written as one compact JSON object whose members are strings
//! and numbers: no white space, no nesting. A text is read back member by
//! member, and only the text that writing produces is accepted, so reading
//! and writing are inverse to each other in both directions.

use crate::text::{holds_at, lemma_holds_at_concat, to_chars};
use crate::token::{
    is_numeral, is_numeral_char, lemma_holds_at_index, lemma_numeral_chars, numeral_stops_at,
    push_quoted, quoted_text, read_numeral, read_quoted, Numeral,
};
use vstd::prelude::*;

verus! {

/// The value of one member of a record.
#[derive(Debug, PartialEq, Eq)]
pub enum Value {
    Text(String),
    Number(Numeral),
}

/// One member of a record: a name and its value.
#[derive(Debug, PartialEq, Eq)]
pub struct Field {
    pub name: String,
    pub value: Value,
}

/// What a `Value` stands for.
pub enum ValueView {
    Text(Seq<char>),
    Number(Seq<char>),
}

/// What a `Field` stands for.
pub struct FieldView {
    pub name: Seq<char>,
    pub value: ValueView,
}

impl View for Value {
    type V = ValueView;

    open spec fn view(&self) -> ValueView {
        match self {
            Value::Text(s) => ValueView::Text(s@),
            Value::Number(n) => ValueView::Number(n@),
        }
    }
}

impl View for Field {
    type V = FieldView;

    open spec fn view(&self) -> FieldView {
        FieldView { name: self.name@, value: self.value@ }
    }
}

/// What a list of fields stands for.
pub open spec fn fields_view(fields: Seq<Field>) -> Seq<FieldView> {
    fields.map_values(|f: Field| f@)
}

/// Whether the number of `f`, if it holds one, is a numeral.
pub open spec fn is_field(f: FieldView) -> bool {
    f.value matches ValueView::Number(n) ==> is_numeral(n)
}

/// Whether every field of `fields` is well formed.
pub open spec fn are_fields(fields: Seq<FieldView>) -> bool {
    forall|k: int| 0 <= k < fields.len() ==> is_field(#[trigger] fields[k])
}

/// The text of a value: a quoted string, or a numeral as it stands.
pub open spec fn value_text(v: ValueView) -> Seq<char> {
    match v {
        ValueView::Text(s) => quoted_text(s),
        ValueView::Number(n) => n,
    }
}

/// The text of a member: the quoted name, a colon and the value.
pub open spec fn field_text(f: FieldView) -> Seq<char> {
    quoted_text(f.name) + seq![':'] + value_text(f.value)
}

/// The texts of the members, joined by commas.
pub open spec fn fields_text(fields: Seq<FieldView>) -> Seq<char>
    decreases fields.len(),
{
    if fields.len() == 0 {
        Seq::empty()
    } else if fields.len() == 1 {
        field_text(fields[0])
    } else {
        fields_text(fields.drop_last()) + seq![','] + field_text(fields.last())
    }
}

/// The text of a record: its members between braces.
pub open spec fn object_text(fields: Seq<FieldView>) -> Seq<char> {
    seq!['{'] + fields_text(fields) + seq!['}']
}

/// What follows the first `k` members in the text of a record.
pub open spec fn remaining_text(fields: Seq<FieldView>, k: int) -> Seq<char>
    decreases fields.len() - k,
{
    if k >= fields.len() {
        seq!['}']
    } else {
        seq![','] + field_text(fields[k]) + remaining_text(fields, k + 1)
    }
}

/// The text of a record is the text of its first members followed by what
/// remains.
pub proof fn lemma_object_text_split(fields: Seq<FieldView>, k: int)
    requires
        1 <= k <= fields.len(),
    ensures
        object_text(fields) == seq!['{'] + fields_text(fields.take(k)) + remaining_text(fields, k),
    decreases fields.len() - k,
{
    if k == fields.len() {
        assert(fields.take(k) == fields);
    } else {
        lemma_object_text_split(fields, k + 1);
        let longer = fields.take(k + 1);
        assert(longer.drop_last() == fields.take(k));
        assert(longer.last() == fields[k]);
        assert(fields_text(longer) == fields_text(fields.take(k)) + seq![','] + field_text(
            fields[k],
        ));
        assert(seq!['{'] + fields_text(longer) + remaining_text(fields, k + 1) == seq!['{']
            + fields_text(fields.take(k)) + (seq![','] + field_text(fields[k]) + remaining_text(
            fields,
            k + 1,
        )));
    }
}

/// Appends the text of `value`.
pub(crate) fn push_value(out: &mut String, value: &Value)
    ensures
        final(out)@ == old(out)@ + value_text(value@),
{
    match value {
        Value::Text(s) => {
            push_quoted(out, s.as_str());
        },
        Value::Number(n) => {
            out.append(n.as_str());
        },
    }
}

/// Appends the text of `field`.
pub(crate) fn push_field(out: &mut String, field: &Field)
    ensures
        final(out)@ == old(out)@ + field_text(field@),
{
    push_quoted(out, field.name.as_str());
    out.push(':');
    push_value(out, &field.value);
    assert(out@ == old(out)@ + (quoted_text(field.name@) + seq![':'] + value_text(field.value@)));
}

/// The text of the record with the given members.
pub fn write_object(fields: &Vec<Field>) -> (text: String)
    ensures
        text@ == object_text(fields_view(fields@)),
{
    let ghost all = fields_view(fields@);
    let mut out = String::new();
    out.push('{');
    let mut k: usize = 0;
    while k < fields.len()
        invariant
            0 <= k <= fields.len(),
            all == fields_view(fields@),
            out@ == seq!['{'] + fields_text(all.take(k as int)),
        decreases fields.len() - k,
    {
        proof {
            let longer = all.take(k + 1);
            assert(longer.drop_last() == all.take(k as int));
            assert(longer.last() == fields@[k as int]@);
        }
        if k > 0 {
            out.push(',');
        }
        push_field(&mut out, &fields[k]);
        k += 1;
    }
    assert(all.take(fields.len() as int) == all);
    out.push('}');
    out
}

/// Whether a member whose text ends at `end` is told from what follows: a
/// string ends with its quote, a number where the numeral characters stop.
pub open spec fn field_stops_at(s: Seq<char>, f: FieldView, end: int) -> bool {
    f.value is Number ==> numeral_stops_at(s, end)
}

/// Where a text holds a member, it holds the quoted name, the colon and the
/// value one after the other, and the first character of the value tells a
/// string from a number.
pub proof fn lemma_field_at(s: Seq<char>, i: int, f: FieldView)
    requires
        holds_at(s, i, field_text(f)),
        is_field(f),
    ensures
        holds_at(s, i, quoted_text(f.name)),
        i + quoted_text(f.name).len() < s.len(),
        s[i + quoted_text(f.name).len()] == ':',
        i + quoted_text(f.name).len() + 1 < s.len(),
        holds_at(s, i + quoted_text(f.name).len() + 1, value_text(f.value)),
        f.value is Text <==> s[i + quoted_text(f.name).len() + 1] == '"',
        field_text(f).len() == quoted_text(f.name).len() + 1 + value_text(f.value).len(),
{
    let name = quoted_text(f.name);
    let colon = seq![':'];
    let value = value_text(f.value);
    let j = i + name.len();
    lemma_holds_at_concat(s, i, name + colon, value);
    lemma_holds_at_concat(s, i, name, colon);
    lemma_holds_at_index(s, j, colon, 0);
    match f.value {
        ValueView::Text(t) => {
            lemma_holds_at_index(s, j + 1, value, 0);
        },
        ValueView::Number(n) => {
            lemma_numeral_chars(n);
            lemma_holds_at_index(s, j + 1, value, 0);
        },
    }
}

/// Reads the member at `i`. It answers with the member and the position
/// behind it exactly where `v` holds a member there that is told from what
/// follows.
pub(crate) fn read_field(v: &Vec<char>, i: usize) -> (r: Option<(Field, usize)>)
    ensures
        r matches Some((f, end)) ==> {
            &&& holds_at(v@, i as int, field_text(f@))
            &&& end == i + field_text(f@).len()
            &&& is_field(f@)
            &&& field_stops_at(v@, f@, end as int)
        },
        forall|x: FieldView|
            is_field(x) && holds_at(v@, i as int, #[trigger] field_text(x)) && field_stops_at(
                v@,
                x,
                i + field_text(x).len(),
            ) ==> (r matches Some(p) && p.0@ == x),
{
    proof {
        assert forall|x: FieldView|
            is_field(x) && holds_at(v@, i as int, #[trigger] field_text(x)) implies {
            let j = i + quoted_text(x.name).len();
            &&& holds_at(v@, i as int, quoted_text(x.name))
            &&& j + 1 < v.len()
            &&& v@[j] == ':'
            &&& holds_at(v@, j + 1, value_text(x.value))
            &&& x.value is Text <==> v@[j + 1] == '"'
            &&& field_text(x).len() == quoted_text(x.name).len() + 1 + value_text(x.value).len()
        } by {
            lemma_field_at(v@, i as int, x);
        }
    }
    let (name, j) = match read_quoted(v, i) {
        Some(p) => p,
        None => { return None; },
    };
    if j >= v.len() || v[j] != ':' || v.len() - j < 2 {
        return None;
    }
    let (value, end) = if v[j + 1] == '"' {
        match read_quoted(v, j + 1) {
            Some((s, end)) => (Value::Text(s), end),
            None => { return None; },
        }
    } else {
        match read_numeral(v, j + 1) {
            Some((n, end)) => {
                let _ = n.as_str();
                (Value::Number(n), end)
            },
            None => { return None; },
        }
    };
    let field = Field { name, value };
    proof {
        let f = field@;
        assert(holds_at(v@, j as int, seq![':'])) by {
            assert(v@.subrange(j as int, j + 1) == seq![':']);
        }
        lemma_holds_at_concat(v@, i as int, quoted_text(f.name), seq![':']);
        lemma_holds_at_concat(v@, i as int, quoted_text(f.name) + seq![':'], value_text(f.value));
    }
    Some((field, end))
}

/// What the text of a record holds behind its opening brace: the closing
/// brace for a record without members, else the first member and what
/// remains behind it.
pub proof fn lemma_object_text_start(fields: Seq<FieldView>)
    ensures
        fields.len() == 0 ==> object_text(fields) == seq!['{', '}'],
        fields.len() > 0 ==> object_text(fields) == seq!['{'] + (field_text(fields[0])
            + remaining_text(fields, 1)),
{
    if fields.len() > 0 {
        lemma_object_text_split(fields, 1);
        assert(fields.take(1).len() == 1);
        assert(fields.take(1)[0] == fields[0]);
    }
}

/// What remains behind a member begins with a brace or a comma, neither of
/// which can occur in a numeral.
pub proof fn lemma_remaining_text_start(fields: Seq<FieldView>, k: int)
    ensures
        remaining_text(fields, k).len() >= 1,
        !is_numeral_char(remaining_text(fields, k)[0]),
        k >= fields.len() ==> remaining_text(fields, k) == seq!['}'],
        k < fields.len() ==> remaining_text(fields, k)[0] == ',' && remaining_text(fields, k)
            == seq![','] + (field_text(fields[k]) + remaining_text(fields, k + 1)),
{
}

/// Reads `text` as a record. It answers with the members exactly where
/// `text` is the text of a record, and those members are the only ones with
/// that text.
pub fn read_object(text: &str) -> (r: Option<Vec<Field>>)
    ensures
        r matches Some(fields) ==> text@ == object_text(fields_view(fields@)) && are_fields(
            fields_view(fields@),
        ),
        forall|x: Seq<FieldView>|
            are_fields(x) && text@ == #[trigger] object_text(x) ==> (r matches Some(fields)
                && fields_view(fields@) == x),
{
    let v = to_chars(text);
    proof {
        assert forall|x: Seq<FieldView>| v@ == #[trigger] object_text(x) implies {
            &&& v.len() >= 2
            &&& v@[0] == '{'
            &&& x.len() == 0 ==> v@ == seq!['{', '}']
            &&& x.len() > 0 ==> v@[1] == '"' && holds_at(
                v@,
                1,
                field_text(x[0]) + remaining_text(x, 1),
            ) && 1 + (field_text(x[0]) + remaining_text(x, 1)).len() == v.len()
        } by {
            lemma_object_text_start(x);
            if x.len() > 0 {
                let rest = field_text(x[0]) + remaining_text(x, 1);
                assert(v@.subrange(1, 1 + rest.len() as int) == rest);
                assert(rest[0] == '"');
            }
        }
    }
    if v.len() < 2 || v[0] != '{' {
        return None;
    }
    let mut fields: Vec<Field> = Vec::new();
    if v[1] == '}' {
        if v.len() != 2 {
            return None;
        }
        assert(fields_view(fields@) == Seq::<FieldView>::empty());
        assert(v@ == seq!['{'] + fields_text(fields_view(fields@)) + seq!['}']);
        return Some(fields);
    }
    let mut i: usize = 1;
    proof {
        assert(fields_view(fields@) == Seq::<FieldView>::empty());
        assert(v@.subrange(0, 1) == seq!['{']);
        assert forall|x: Seq<FieldView>| v@ == #[trigger] object_text(x) implies x.len() > 0
            && x.take(0) == fields_view(fields@) by {}
    }
    loop
        invariant
            1 <= i <= v.len(),
            v@ == text@,
            are_fields(fields_view(fields@)),
            fields.len() == 0 ==> v@.subrange(0, i as int) == seq!['{'],
            fields.len() > 0 ==> v@.subrange(0, i as int) == seq!['{'] + fields_text(
                fields_view(fields@),
            ) + seq![','],
            forall|x: Seq<FieldView>|
                are_fields(x) && v@ == #[trigger] object_text(x) ==> {
                    let k = fields.len() as int;
                    &&& k < x.len()
                    &&& x.take(k) == fields_view(fields@)
                    &&& holds_at(v@, i as int, field_text(x[k]) + remaining_text(x, k + 1))
                    &&& i + (field_text(x[k]) + remaining_text(x, k + 1)).len() == v.len()
                },
        decreases v.len() - i,
    {
        let ghost before = fields_view(fields@);
        let ghost k = fields.len() as int;
        proof {
            assert forall|x: Seq<FieldView>|
                are_fields(x) && v@ == #[trigger] object_text(x) implies {
                let end = i + field_text(x[k]).len();
                &&& is_field(x[k])
                &&& holds_at(v@, i as int, field_text(x[k]))
                &&& holds_at(v@, end, remaining_text(x, k + 1))
                &&& end + remaining_text(x, k + 1).len() == v.len()
                &&& field_stops_at(v@, x[k], end)
                &&& k + 1 >= x.len() ==> v@[end] == '}' && end + 1 == v.len()
                &&& k + 1 < x.len() ==> {
                    &&& v@[end] == ','
                    &&& holds_at(
                        v@,
                        end + 1,
                        field_text(x[k + 1]) + remaining_text(x, k + 2),
                    )
                    &&& end + 1 + (field_text(x[k + 1]) + remaining_text(x, k + 2)).len()
                        == v.len()
                }
            } by {
                let end = i + field_text(x[k]).len();
                let rest = remaining_text(x, k + 1);
                lemma_holds_at_concat(v@, i as int, field_text(x[k]), rest);
                lemma_remaining_text_start(x, k + 1);
                lemma_holds_at_index(v@, end, rest, 0);
                if k + 1 < x.len() {
                    lemma_holds_at_concat(
                        v@,
                        end,
                        seq![','],
                        field_text(x[k + 1]) + remaining_text(x, k + 2),
                    );
                }
            }
        }
        let (field, end) = match read_field(&v, i) {
            Some(p) => p,
            None => { return None; },
        };
        fields.push(field);
        let ghost after = fields_view(fields@);
        proof {
            assert(after.drop_last() == before);
            assert(after.last() == field@);
            assert forall|j: int| 0 <= j < after.len() implies is_field(#[trigger] after[j]) by {
                if j < before.len() {
                    assert(after[j] == before[j]);
                }
            }
            assert(v@.subrange(0, end as int) == v@.subrange(0, i as int) + v@.subrange(
                i as int,
                end as int,
            ));
            assert(v@.subrange(0, end as int) == seq!['{'] + fields_text(after)) by {
                if k == 0 {
                    assert(after.len() == 1);
                } else {
                    assert(fields_text(after) == fields_text(before) + seq![','] + field_text(
                        field@,
                    ));
                }
            }
            assert forall|x: Seq<FieldView>|
                are_fields(x) && v@ == #[trigger] object_text(x) implies x.take(k + 1)
                == after by {
                assert(x.take(k + 1).drop_last() == x.take(k));
                assert(x.take(k + 1) == x.take(k).push(x[k]));
                assert(after == before.push(field@));
            }
        }
        if end >= v.len() {
            return None;
        }
        if v[end] == '}' {
            if end + 1 != v.len() {
                return None;
            }
            proof {
                assert(v@ == v@.subrange(0, end as int) + seq!['}']);
                assert forall|x: Seq<FieldView>|
                    are_fields(x) && v@ == #[trigger] object_text(x) implies x == after by {
                    assert(x.take(k + 1) == x);
                }
            }
            return Some(fields);
        }
        if v[end] != ',' {
            return None;
        }
        proof {
            assert(v@.subrange(0, end + 1) == v@.subrange(0, end as int) + seq![',']);
        }
        i = end + 1;
    }
}

} // verus!
