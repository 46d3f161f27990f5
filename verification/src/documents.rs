//! The rules for documents: what a document and its values must look like
//! before they are stored, and which values are stored.
use vstd::prelude::*;

use crate::error::{is_bad, AppError};
use crate::json::{json_quoted, json_string_text};
use crate::model::{lookup, name_result, require_name, Field, FieldType, FieldValue, ValueView};
use crate::text::{
    chars_of, eq_chars, is_ascii_digit, replace, replace_exec, string_of, trim,
    trim_chars, utf8_len, utf8_len_exceeds,
};

verus! {

/// A document's body, refused where it is longer than 200 000 bytes.
pub fn clamp_body(body: &str) -> (r: Result<String, AppError>)
    ensures
        utf8_len(body@) > 200000 ==> (r matches Err(e) && is_bad(e, "текст документа слишком длинный"@)),
        utf8_len(body@) <= 200000 ==> (r matches Ok(b) && b@ == body@),
{
    let v = chars_of(body);
    if utf8_len_exceeds(&v, crate::templates::MAX_BODY_BYTES) {
        return Err(AppError::bad("текст документа слишком длинный"));
    }
    Ok(string_of(&v))
}

// ---------------------------------------------------------------------------
// Values
// ---------------------------------------------------------------------------
/// A date written `YYYY-MM-DD`: ten characters, digits but for the dashes at
/// the fifth and eighth.
pub open spec fn iso_date(s: Seq<char>) -> bool {
    s.len() == 10 && forall|i: int|
        0 <= i < 10 ==> (if i == 4 || i == 7 {
            #[trigger] s[i] == '-'
        } else {
            is_ascii_digit(s[i])
        })
}

/// Whether `s` is a date written `YYYY-MM-DD`.
pub fn is_iso_date(s: &str) -> (b: bool)
    ensures
        b == iso_date(s@),
{
    let v = chars_of(s);
    if v.len() != 10 {
        return false;
    }
    let mut i: usize = 0;
    while i < 10
        invariant
            i <= 10,
            v@ == s@,
            v@.len() == 10,
            forall|k: int|
                0 <= k < i ==> (if k == 4 || k == 7 {
                    #[trigger] v@[k] == '-'
                } else {
                    is_ascii_digit(v@[k])
                }),
        decreases 10 - i,
    {
        let ok = if i == 4 || i == 7 {
            v[i] == '-'
        } else {
            '0' <= v[i] && v[i] <= '9'
        };
        if !ok {
            return false;
        }
        i = i + 1;
    }
    true
}

/// The text whose number a value gives for a number field: a number as
/// written; a text that is not blank, trimmed, with each `,` read as `.`.
pub open spec fn number_source_spec(v: ValueView) -> Option<Seq<char>> {
    match v {
        ValueView::Number(n) => Some(n),
        ValueView::Str(s) => if trim(s).len() > 0 {
            Some(replace(trim(s), ","@, "."@))
        } else {
            None
        },
        _ => None,
    }
}

/// The text to read a number from, for a number field; see [`validate_value`].
pub fn number_source(v: &FieldValue) -> (r: Option<String>)
    ensures
        match r {
            Some(t) => number_source_spec(v@) == Some(t@),
            None => number_source_spec(v@) is None,
        },
{
    match v {
        FieldValue::Number(n) => Some(string_of(&chars_of(n.as_str()))),
        FieldValue::Str(s) => {
            let t = trim_chars(&chars_of(s.as_str()));
            if t.len() == 0 {
                return None;
            }
            let comma: Vec<char> = vec![','];
            let dot: Vec<char> = vec!['.'];
            proof {
                reveal_strlit(",");
                reveal_strlit(".");
            }
            assert(comma@ =~= ","@);
            assert(dot@ =~= "."@);
            Some(string_of(&replace_exec(&t, &comma, &dot)))
        },
        _ => None,
    }
}

/// Whether a value ticks a checkbox: `true`, the texts `true`, `1` and `on`,
/// the number 1.
pub open spec fn ticked(v: ValueView) -> bool {
    match v {
        ValueView::Bool(b) => b,
        ValueView::Str(s) => s == "true"@ || s == "1"@ || s == "on"@,
        ValueView::Number(n) => n == "1"@,
        _ => false,
    }
}

/// Whether `opts` holds `s`.
pub open spec fn has_option(opts: Seq<String>, s: Seq<char>) -> bool {
    exists|k: int| 0 <= k < opts.len() && opts[k]@ == s
}

/// What a value becomes for a field, or the message it is refused with. A
/// missing value, and a blank text, is refused where the field is required and
/// stored as nothing otherwise. A checkbox takes any value. A number field takes
/// a number or a text, as the number `reading` (the text of
/// [`number_source_spec`] read as a number and written as JSON; `None` where it
/// reads as none). Other fields take a text, trimmed, within their bounds.
pub open spec fn validate_spec(f: Field, v: ValueView, reading: Option<FieldValue>) -> Result<
    ValueView,
    Seq<char>,
> {
    let label = f.label@;
    let blank = if f.required {
        Err("поле «"@ + label + "» обязательно"@)
    } else {
        Ok(ValueView::Null)
    };
    let not_number = Err("поле «"@ + label + "» должно быть числом"@);
    if v is Null {
        blank
    } else if f.field_type is Checkbox {
        Ok(ValueView::Bool(ticked(v)))
    } else if f.field_type is Number {
        match v {
            ValueView::Str(s) => if trim(s).len() == 0 {
                blank
            } else {
                match reading {
                    Some(r) => Ok(r@),
                    None => not_number,
                }
            },
            ValueView::Number(_) => match reading {
                Some(r) => Ok(r@),
                None => not_number,
            },
            _ => not_number,
        }
    } else {
        match v {
            ValueView::Str(s) => {
                let t = trim(s);
                let long = Err("поле «"@ + label + "» слишком длинное"@);
                if t.len() == 0 {
                    blank
                } else if f.field_type is Text && utf8_len(t) > 500 {
                    long
                } else if f.field_type is Textarea && utf8_len(t) > 20000 {
                    long
                } else if f.field_type is Date && !iso_date(t) {
                    Err("поле «"@ + label + "» должно быть датой ГГГГ-ММ-ДД"@)
                } else if f.field_type is Select && !has_option(f.options@, t) {
                    Err("поле «"@ + label + "»: нет такого варианта"@)
                } else {
                    Ok(ValueView::Str(t))
                }
            },
            _ => Err("поле «"@ + label + "» должно быть текстом"@),
        }
    }
}

fn field_error(label: &String, tail: &str) -> (e: AppError)
    ensures
        is_bad(e, "поле «"@ + label@ + tail@),
{
    AppError::bad_around("поле «", &chars_of(label.as_str()), tail)
}

fn blank_value(field: &Field) -> (r: Result<FieldValue, AppError>)
    ensures
        field.required ==> (r matches Err(e) && is_bad(e, "поле «"@ + field.label@ + "» обязательно"@)),
        !field.required ==> (r matches Ok(v) && v@ == ValueView::Null),
{
    if field.required {
        return Err(field_error(&field.label, "» обязательно"));
    }
    Ok(FieldValue::Null)
}

fn has_option_exec(opts: &Vec<String>, s: &Vec<char>) -> (b: bool)
    ensures
        b == has_option(opts@, s@),
{
    let mut i: usize = 0;
    while i < opts.len()
        invariant
            i <= opts.len(),
            forall|k: int| 0 <= k < i ==> opts@[k]@ != s@,
        decreases opts.len() - i,
    {
        if eq_chars(&chars_of(opts[i].as_str()), s) {
            return true;
        }
        i = i + 1;
    }
    false
}

fn ticked_exec(v: &FieldValue) -> (b: bool)
    ensures
        b == ticked(v@),
{
    proof {
        reveal_strlit("true");
        reveal_strlit("1");
        reveal_strlit("on");
    }
    match v {
        FieldValue::Bool(b) => *b,
        FieldValue::Str(s) => {
            let c = chars_of(s.as_str());
            eq_chars(&c, &chars_of("true")) || eq_chars(&c, &chars_of("1")) || eq_chars(&c, &chars_of("on"))
        },
        FieldValue::Number(n) => eq_chars(&chars_of(n.as_str()), &chars_of("1")),
        _ => false,
    }
}

fn copy_value(v: &FieldValue) -> (r: FieldValue)
    ensures
        r@ == v@,
{
    match v {
        FieldValue::Null => FieldValue::Null,
        FieldValue::Bool(b) => FieldValue::Bool(*b),
        FieldValue::Number(n) => FieldValue::Number(string_of(&chars_of(n.as_str()))),
        FieldValue::Str(s) => FieldValue::Str(string_of(&chars_of(s.as_str()))),
        FieldValue::Other(j) => FieldValue::Other(string_of(&chars_of(j.as_str()))),
    }
}

/// Checks a value given for a field and brings it to the form it is stored in.
/// `reading` is what the text of [`number_source`] reads as as a number,
/// written as JSON (`None` where it is no number); only number fields use it.
pub fn validate_value(field: &Field, value: &FieldValue, reading: &Option<FieldValue>) -> (r: Result<
    FieldValue,
    AppError,
>)
    ensures
        match validate_spec(*field, value@, *reading) {
            Ok(w) => r matches Ok(x) && x@ == w,
            Err(m) => r matches Err(e) && is_bad(e, m),
        },
{
    if matches!(value, FieldValue::Null) {
        return blank_value(field);
    }
    match field.field_type {
        FieldType::Checkbox => Ok(FieldValue::Bool(ticked_exec(value))),
        FieldType::Number => {
            let numeric = match value {
                FieldValue::Str(s) => {
                    if trim_chars(&chars_of(s.as_str())).len() == 0 {
                        return blank_value(field);
                    }
                    true
                },
                FieldValue::Number(_) => true,
                _ => false,
            };
            if numeric {
                if let Some(x) = reading {
                    return Ok(copy_value(x));
                }
            }
            Err(field_error(&field.label, "» должно быть числом"))
        },
        _ => {
            let s = match value {
                FieldValue::Str(s) => s,
                _ => {
                    return Err(field_error(&field.label, "» должно быть текстом"));
                },
            };
            let t = trim_chars(&chars_of(s.as_str()));
            if t.len() == 0 {
                return blank_value(field);
            }
            if matches!(field.field_type, FieldType::Text) && utf8_len_exceeds(&t, 500) {
                return Err(field_error(&field.label, "» слишком длинное"));
            }
            if matches!(field.field_type, FieldType::Textarea) && utf8_len_exceeds(&t, 20000) {
                return Err(field_error(&field.label, "» слишком длинное"));
            }
            if matches!(field.field_type, FieldType::Date) && !is_iso_date(string_of(&t).as_str()) {
                return Err(field_error(&field.label, "» должно быть датой ГГГГ-ММ-ДД"));
            }
            if matches!(field.field_type, FieldType::Select) && !has_option_exec(&field.options, &t) {
                return Err(field_error(&field.label, "»: нет такого варианта"));
            }
            Ok(FieldValue::Str(string_of(&t)))
        },
    }
}

/// The value given for `key`; nothing where none is.
pub open spec fn value_for(values: Seq<(String, FieldValue)>, key: Seq<char>) -> ValueView {
    match lookup(values, key) {
        Some(v) => v@,
        None => ValueView::Null,
    }
}

/// Pairs of an identifier and a value, as mathematics sees them.
pub open spec fn pairs_view(v: Seq<(String, FieldValue)>) -> Seq<(Seq<char>, ValueView)> {
    v.map_values(|p: (String, FieldValue)| (p.0@, p.1@))
}

/// Each field's value checked in turn, paired with the field's identifier; the
/// first refusal wins. `readings[k]` is the number reading for `fields[k]`.
pub open spec fn normalize_spec(fields: Seq<Field>, values: Seq<(String, FieldValue)>, readings: Seq<Option<FieldValue>>) -> Result<
    Seq<(Seq<char>, ValueView)>,
    Seq<char>,
>
    decreases fields.len(),
{
    if fields.len() == 0 {
        Ok(Seq::empty())
    } else {
        match validate_spec(fields[0], value_for(values, fields[0].key@), readings[0]) {
            Err(m) => Err(m),
            Ok(v) => match normalize_spec(fields.drop_first(), values, readings.drop_first()) {
                Err(m) => Err(m),
                Ok(rest) => Ok(seq![(fields[0].id@, v)] + rest),
            },
        }
    }
}

/// `r` after the pairs in `done`.
pub open spec fn after_pairs(done: Seq<(Seq<char>, ValueView)>, r: Result<Seq<(Seq<char>, ValueView)>, Seq<char>>) -> Result<
    Seq<(Seq<char>, ValueView)>,
    Seq<char>,
> {
    match r {
        Ok(rest) => Ok(done + rest),
        Err(e) => Err(e),
    }
}

/// The value of each field checked, paired with the field's identifier, in the
/// fields' order. `readings[k]` is the number reading of the value for
/// `fields[k]` (see [`validate_value`]).
pub fn normalize_values(fields: &Vec<Field>, values: &Vec<(String, FieldValue)>, readings: &Vec<Option<FieldValue>>) -> (r: Result<
    Vec<(String, FieldValue)>,
    AppError,
>)
    requires
        readings@.len() == fields@.len(),
    ensures
        match normalize_spec(fields@, values@, readings@) {
            Ok(ps) => r matches Ok(v) && pairs_view(v@) == ps,
            Err(m) => r matches Err(e) && is_bad(e, m),
        },
{
    let mut out: Vec<(String, FieldValue)> = Vec::new();
    let mut i: usize = 0;
    assert(fields@.skip(0) =~= fields@);
    assert(readings@.skip(0) =~= readings@);
    assert(pairs_view(out@) =~= Seq::<(Seq<char>, ValueView)>::empty());
    while i < fields.len()
        invariant
            i <= fields.len(),
            readings@.len() == fields@.len(),
            normalize_spec(fields@, values@, readings@) == after_pairs(
                pairs_view(out@),
                normalize_spec(fields@.skip(i as int), values@, readings@.skip(i as int)),
            ),
        decreases fields.len() - i,
    {
        let ghost fs = fields@.skip(i as int);
        let ghost rs = readings@.skip(i as int);
        assert(fs[0] == fields@[i as int]);
        assert(rs[0] == readings@[i as int]);
        assert(fs.drop_first() =~= fields@.skip(i + 1));
        assert(rs.drop_first() =~= readings@.skip(i + 1));
        let f = &fields[i];
        let raw = match crate::model::get_value(values, f.key.as_str()) {
            Some(v) => v,
            None => FieldValue::Null,
        };
        let v = match validate_value(f, &raw, &readings[i]) {
            Ok(v) => v,
            Err(e) => {
                return Err(e);
            },
        };
        let ghost before = pairs_view(out@);
        let id = string_of(&chars_of(f.id.as_str()));
        out.push((id, v));
        assert(pairs_view(out@) =~= before.push((fields@[i as int].id@, v@)));
        proof {
            match normalize_spec(fields@.skip(i + 1), values@, readings@.skip(i + 1)) {
                Ok(t) => {
                    assert(before + (seq![(fields@[i as int].id@, v@)] + t) =~= before.push(
                        (fields@[i as int].id@, v@),
                    ) + t);
                },
                Err(_) => {},
            }
        }
        i = i + 1;
    }
    assert(fields@.skip(i as int) =~= Seq::<Field>::empty());
    assert(pairs_view(out@) + Seq::<(Seq<char>, ValueView)>::empty() =~= pairs_view(out@));
    Ok(out)
}

/// A value as stored: its JSON text.
pub open spec fn value_json_spec(v: ValueView) -> Seq<char> {
    match v {
        ValueView::Null => "null"@,
        ValueView::Bool(b) => if b {
            "true"@
        } else {
            "false"@
        },
        ValueView::Number(n) => n,
        ValueView::Str(s) => json_string_text(s),
        ValueView::Other(j) => j,
    }
}

/// The JSON text a value is stored as.
pub fn value_json(v: &FieldValue) -> (s: String)
    ensures
        s@ == value_json_spec(v@),
{
    match v {
        FieldValue::Null => "null".to_owned(),
        FieldValue::Bool(true) => "true".to_owned(),
        FieldValue::Bool(false) => "false".to_owned(),
        FieldValue::Number(n) => string_of(&chars_of(n.as_str())),
        FieldValue::Str(t) => json_quoted(t.as_str()),
        FieldValue::Other(j) => string_of(&chars_of(j.as_str())),
    }
}

/// Whether one of `fields` has the identifier `id`.
pub open spec fn has_field_id(fields: Seq<Field>, id: Seq<char>) -> bool {
    exists|k: int| 0 <= k < fields.len() && fields[k].id@ == id
}

/// The values that are stored, in order, as their JSON text: those that are not
/// nothing, of a field of the template.
pub open spec fn stored_values(fields: Seq<Field>, values: Seq<(Seq<char>, ValueView)>) -> Seq<
    (Seq<char>, Seq<char>),
>
    decreases values.len(),
{
    if values.len() == 0 {
        Seq::empty()
    } else {
        let (id, v) = values[0];
        (if v is Null || !has_field_id(fields, id) {
            Seq::empty()
        } else {
            seq![(id, value_json_spec(v))]
        }) + stored_values(fields, values.drop_first())
    }
}

fn has_field_id_exec(fields: &Vec<Field>, id: &Vec<char>) -> (b: bool)
    ensures
        b == has_field_id(fields@, id@),
{
    let mut i: usize = 0;
    while i < fields.len()
        invariant
            i <= fields.len(),
            forall|k: int| 0 <= k < i ==> fields@[k].id@ != id@,
        decreases fields.len() - i,
    {
        if eq_chars(&chars_of(fields[i].id.as_str()), id) {
            return true;
        }
        i = i + 1;
    }
    false
}

/// The values to store for a document: field identifier and JSON text, for each
/// value that is not nothing and belongs to one of `fields`.
pub fn values_to_store(fields: &Vec<Field>, values: &Vec<(String, FieldValue)>) -> (out: Vec<(String, String)>)
    ensures
        out@.map_values(|p: (String, String)| (p.0@, p.1@)) == stored_values(fields@, pairs_view(values@)),
{
    let ghost all = pairs_view(values@);
    let mut out: Vec<(String, String)> = Vec::new();
    let mut i: usize = 0;
    assert(all.skip(0) =~= all);
    assert(out@.map_values(|p: (String, String)| (p.0@, p.1@)) =~= Seq::<(Seq<char>, Seq<char>)>::empty());
    while i < values.len()
        invariant
            i <= values.len(),
            all == pairs_view(values@),
            stored_values(fields@, all) == out@.map_values(|p: (String, String)| (p.0@, p.1@))
                + stored_values(fields@, all.skip(i as int)),
        decreases values.len() - i,
    {
        let ghost rest = all.skip(i as int);
        assert(rest[0] == all[i as int]);
        assert(all[i as int] == (values@[i as int].0@, values@[i as int].1@));
        assert(rest.drop_first() =~= all.skip(i + 1));
        let ghost before = out@.map_values(|p: (String, String)| (p.0@, p.1@));
        let id = chars_of(values[i].0.as_str());
        if !matches!(values[i].1, FieldValue::Null) && has_field_id_exec(fields, &id) {
            let j = value_json(&values[i].1);
            out.push((string_of(&id), j));
            assert(out@.map_values(|p: (String, String)| (p.0@, p.1@)) =~= before.push(
                (id@, value_json_spec(values@[i as int].1@)),
            ));
        } else {
            assert(out@.map_values(|p: (String, String)| (p.0@, p.1@)) =~= before);
        }
        i = i + 1;
    }
    assert(all.skip(i as int) =~= Seq::<(Seq<char>, ValueView)>::empty());
    proof {
        let v = out@.map_values(|p: (String, String)| (p.0@, p.1@));
        assert(v + Seq::<(Seq<char>, Seq<char>)>::empty() =~= v);
    }
    out
}

// ---------------------------------------------------------------------------
// Documents as they will be stored
// ---------------------------------------------------------------------------
/// A document ready to be stored.
#[derive(Debug)]
pub struct CheckedDocument {
    pub title: String,
    pub body: String,
    pub values: Vec<(String, FieldValue)>,
}

/// What becomes of a document as sent, or the first refusal: its title, its
/// body, then its values.
pub open spec fn document_spec(title: Seq<char>, body: Seq<char>, fields: Seq<Field>, values: Seq<(String, FieldValue)>, readings: Seq<Option<FieldValue>>) -> Result<
    (Seq<char>, Seq<char>, Seq<(Seq<char>, ValueView)>),
    Seq<char>,
> {
    match name_result(title, "название документа"@) {
        Err(m) => Err(m),
        Ok(t) => if utf8_len(body) > 200000 {
            Err("текст документа слишком длинный"@)
        } else {
            match normalize_spec(fields, values, readings) {
                Err(m) => Err(m),
                Ok(vs) => Ok((t, body, vs)),
            }
        },
    }
}

/// Checks a document as sent, for a template with `fields`, before it is
/// created or changed. `readings[k]` is the number reading of the value for
/// `fields[k]` (see [`validate_value`]).
pub fn check_document(title: &str, body: &str, fields: &Vec<Field>, values: &Vec<(String, FieldValue)>, readings: &Vec<Option<FieldValue>>) -> (r: Result<
    CheckedDocument,
    AppError,
>)
    requires
        readings@.len() == fields@.len(),
    ensures
        match document_spec(title@, body@, fields@, values@, readings@) {
            Ok((t, b, vs)) => r matches Ok(d) && d.title@ == t && d.body@ == b && pairs_view(d.values@) == vs,
            Err(m) => r matches Err(e) && is_bad(e, m),
        },
{
    let title = match require_name(title, "название документа") {
        Ok(t) => t,
        Err(e) => {
            return Err(e);
        },
    };
    let body = match clamp_body(body) {
        Ok(b) => b,
        Err(e) => {
            return Err(e);
        },
    };
    let values = match normalize_values(fields, values, readings) {
        Ok(v) => v,
        Err(e) => {
            return Err(e);
        },
    };
    Ok(CheckedDocument { title, body, values })
}

/// The form an imported document is filled in: one that exists, or a new one
/// under a name.
#[derive(Debug, Clone)]
pub enum ImportForm {
    Existing(String),
    New(String),
}

/// The form for an import: the one named by a non-empty `form_id`, otherwise a
/// new one under `form_name`, which must be a valid name.
pub fn import_form(form_id: &Option<String>, form_name: &Option<String>) -> (r: Result<ImportForm, AppError>)
    ensures
        match *form_id {
            Some(id) if id@.len() > 0 => r matches Ok(ImportForm::Existing(x)) && x@ == id@,
            _ => match name_result(
                match *form_name {
                    Some(n) => n@,
                    None => Seq::empty(),
                },
                "название формы"@,
            ) {
                Ok(n) => r matches Ok(ImportForm::New(x)) && x@ == n,
                Err(m) => r matches Err(e) && is_bad(e, m),
            },
        },
{
    if let Some(id) = form_id {
        let v = chars_of(id.as_str());
        if v.len() > 0 {
            return Ok(ImportForm::Existing(string_of(&v)));
        }
    }
    proof {
        reveal_strlit("");
    }
    let name = match form_name {
        Some(n) => require_name(n.as_str(), "название формы"),
        None => require_name("", "название формы"),
    };
    match name {
        Ok(n) => Ok(ImportForm::New(n)),
        Err(e) => Err(e),
    }
}

// ---------------------------------------------------------------------------
// What holds of stored values
// ---------------------------------------------------------------------------
/// A value as a field stores it: a checkbox holds a boolean or nothing; a text,
/// long text, date or list holds nothing or a trimmed, non-empty text within the
/// field's bounds (a date `YYYY-MM-DD`, one of the list's options); a required
/// field, other than a number, holds something.
pub open spec fn value_fits(f: Field, w: ValueView) -> bool {
    &&& f.field_type is Checkbox ==> (w is Bool || w is Null)
    &&& f.required && !(f.field_type is Number) ==> !(w is Null)
    &&& !(f.field_type is Checkbox) && !(f.field_type is Number) ==> (w is Null || (
    w matches ValueView::Str(t) && text_fits(f, t)))
}

/// A text as a text, long text, date or list field stores it.
pub open spec fn text_fits(f: Field, t: Seq<char>) -> bool {
    &&& t.len() > 0 && trim(t) == t
    &&& f.field_type is Text ==> utf8_len(t) <= 500
    &&& f.field_type is Textarea ==> utf8_len(t) <= 20000
    &&& f.field_type is Date ==> iso_date(t)
    &&& f.field_type is Select ==> has_option(f.options@, t)
}

/// Law: whatever a field accepts, it stores in its form (see [`value_fits`]);
/// in particular a required field that is not a number is never stored empty.
pub proof fn law_accepted_value_fits(f: Field, v: ValueView, reading: Option<FieldValue>)
    requires
        validate_spec(f, v, reading) is Ok,
    ensures
        value_fits(f, validate_spec(f, v, reading)->Ok_0),
{
    let w = validate_spec(f, v, reading)->Ok_0;
    if !(v is Null) && !(f.field_type is Checkbox) && !(f.field_type is Number) {
        if let ValueView::Str(s) = v {
            let t = trim(s);
            crate::text::lemma_trim_idempotent(s);
        }
    }
}

/// Law: a value stored for a field that is not a number passes the field's check
/// again unchanged, so saving a document again changes none of its values.
pub proof fn law_stored_value_passes(f: Field, w: ValueView, reading: Option<FieldValue>)
    requires
        value_fits(f, w),
        !(f.field_type is Number),
    ensures
        validate_spec(f, w, reading) == Ok::<ValueView, Seq<char>>(w),
{
}

/// Law: when a document's values are accepted, there is one per field, in the
/// fields' order under their identifiers, each in its field's form; so no
/// required field other than a number is stored empty.
pub proof fn law_document_values_fit(fields: Seq<Field>, values: Seq<(String, FieldValue)>, readings: Seq<Option<FieldValue>>)
    requires
        readings.len() == fields.len(),
        normalize_spec(fields, values, readings) is Ok,
    ensures
        ({
            let ps = normalize_spec(fields, values, readings)->Ok_0;
            &&& ps.len() == fields.len()
            &&& forall|k: int| 0 <= k < ps.len() ==> (#[trigger] ps[k]).0 == fields[k].id@
            &&& forall|k: int| 0 <= k < ps.len() ==> value_fits(fields[k], (#[trigger] ps[k]).1)
        }),
    decreases fields.len(),
{
    if fields.len() > 0 {
        let v = validate_spec(fields[0], value_for(values, fields[0].key@), readings[0]);
        law_accepted_value_fits(fields[0], value_for(values, fields[0].key@), readings[0]);
        law_document_values_fit(fields.drop_first(), values, readings.drop_first());
        let rest = normalize_spec(fields.drop_first(), values, readings.drop_first())->Ok_0;
        let ps = normalize_spec(fields, values, readings)->Ok_0;
        assert forall|k: int| 0 < k < ps.len() implies (#[trigger] ps[k]).0 == fields[k].id@ && value_fits(fields[k], ps[k].1) by {
            assert(ps[k] == rest[k - 1]);
            assert(fields.drop_first()[k - 1] == fields[k]);
        }
    }
}

} // verus!
