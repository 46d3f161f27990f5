use vstd::prelude::*;

use crate::error::{is_bad, AppError};
use crate::text::{chars_of, eq_chars, is_ascii_digit, is_ascii_lower, string_of, trim, trim_chars, utf8_len, utf8_len_exceeds};

verus! {

// ---------------------------------------------------------------------------
// Field types and fill modes
// ---------------------------------------------------------------------------
/// The kind of input a template field takes.
#[derive(Debug, Clone, Copy, PartialEq, Eq, Structural)]
pub enum FieldType {
    Text,
    Textarea,
    Number,
    Date,
    Checkbox,
    Select,
}

/// The stored name of a field type.
pub open spec fn field_type_name(t: FieldType) -> Seq<char> {
    match t {
        FieldType::Text => "text"@,
        FieldType::Textarea => "textarea"@,
        FieldType::Number => "number"@,
        FieldType::Date => "date"@,
        FieldType::Checkbox => "checkbox"@,
        FieldType::Select => "select"@,
    }
}

impl FieldType {
    pub fn as_str(self) -> (s: &'static str)
        ensures
            s@ == field_type_name(self),
    {
        match self {
            FieldType::Text => "text",
            FieldType::Textarea => "textarea",
            FieldType::Number => "number",
            FieldType::Date => "date",
            FieldType::Checkbox => "checkbox",
            FieldType::Select => "select",
        }
    }

    /// Reads a stored field type name; any other text is refused.
    pub fn parse(s: &str) -> (r: Result<FieldType, AppError>)
        ensures
            r matches Ok(t) ==> field_type_name(t) == s@,
            r is Err ==> (forall|t: FieldType| field_type_name(t) != s@) && is_bad(
                r->Err_0,
                "неизвестный тип поля: "@ + s@,
            ),
    {
        let v = chars_of(s);
        if eq_chars(&v, &chars_of("text")) {
            Ok(FieldType::Text)
        } else if eq_chars(&v, &chars_of("textarea")) {
            Ok(FieldType::Textarea)
        } else if eq_chars(&v, &chars_of("number")) {
            Ok(FieldType::Number)
        } else if eq_chars(&v, &chars_of("date")) {
            Ok(FieldType::Date)
        } else if eq_chars(&v, &chars_of("checkbox")) {
            Ok(FieldType::Checkbox)
        } else if eq_chars(&v, &chars_of("select")) {
            Ok(FieldType::Select)
        } else {
            proof {
                assert forall|t: FieldType| field_type_name(t) != s@ by {
                    match t {
                        FieldType::Text => {},
                        FieldType::Textarea => {},
                        FieldType::Number => {},
                        FieldType::Date => {},
                        FieldType::Checkbox => {},
                        FieldType::Select => {},
                    }
                }
            }
            Err(AppError::bad_prefixed("неизвестный тип поля: ", &v))
        }
    }
}

/// How a field gets its value: typed by hand, the creation date, or the next
/// number of a per-template sequence.
#[derive(Debug, Clone, Copy, PartialEq, Eq, Structural)]
pub enum FillMode {
    Manual,
    CreatedAt,
    Sequence,
}

/// The stored name of a fill mode.
pub open spec fn fill_mode_name(m: FillMode) -> Seq<char> {
    match m {
        FillMode::Manual => "manual"@,
        FillMode::CreatedAt => "created_at"@,
        FillMode::Sequence => "sequence"@,
    }
}

impl FillMode {
    pub fn as_str(self) -> (s: &'static str)
        ensures
            s@ == fill_mode_name(self),
    {
        match self {
            FillMode::Manual => "manual",
            FillMode::CreatedAt => "created_at",
            FillMode::Sequence => "sequence",
        }
    }

    /// Reads a stored fill mode name; any other text is refused.
    pub fn parse(s: &str) -> (r: Result<FillMode, AppError>)
        ensures
            r matches Ok(m) ==> fill_mode_name(m) == s@,
            r is Err ==> (forall|m: FillMode| fill_mode_name(m) != s@) && is_bad(
                r->Err_0,
                "неизвестный способ заполнения: "@ + s@,
            ),
    {
        let v = chars_of(s);
        if eq_chars(&v, &chars_of("manual")) {
            Ok(FillMode::Manual)
        } else if eq_chars(&v, &chars_of("created_at")) {
            Ok(FillMode::CreatedAt)
        } else if eq_chars(&v, &chars_of("sequence")) {
            Ok(FillMode::Sequence)
        } else {
            proof {
                assert forall|m: FillMode| fill_mode_name(m) != s@ by {
                    match m {
                        FillMode::Manual => {},
                        FillMode::CreatedAt => {},
                        FillMode::Sequence => {},
                    }
                }
            }
            Err(AppError::bad_prefixed("неизвестный способ заполнения: ", &v))
        }
    }
}

/// The stored names of the field types are pairwise different, so a name read
/// back gives the type it was written for.
pub proof fn lemma_field_type_names_distinct(a: FieldType, b: FieldType)
    ensures
        field_type_name(a) == field_type_name(b) ==> a == b,
{
    reveal_strlit("text");
    reveal_strlit("textarea");
    reveal_strlit("number");
    reveal_strlit("date");
    reveal_strlit("checkbox");
    reveal_strlit("select");
    if field_type_name(a) == field_type_name(b) && a != b {
        let x = field_type_name(a);
        let y = field_type_name(b);
        assert(x.len() == y.len());
        assert(x[0] == y[0]);
        assert(x[x.len() - 1] == y[y.len() - 1]);
    }
}

/// Writing a field type and parsing the name back gives the same type.
pub proof fn law_field_type_round_trip(t: FieldType, s: &str)
    requires
        s@ == field_type_name(t),
    ensures
        forall|u: FieldType| #[trigger] field_type_name(u) == s@ ==> u == t,
{
    assert forall|u: FieldType| #[trigger] field_type_name(u) == s@ implies u == t by {
        lemma_field_type_names_distinct(u, t);
    }
}

/// The stored names of the fill modes are pairwise different.
pub proof fn lemma_fill_mode_names_distinct(a: FillMode, b: FillMode)
    ensures
        fill_mode_name(a) == fill_mode_name(b) ==> a == b,
{
    reveal_strlit("manual");
    reveal_strlit("created_at");
    reveal_strlit("sequence");
    if fill_mode_name(a) == fill_mode_name(b) && a != b {
        let x = fill_mode_name(a);
        let y = fill_mode_name(b);
        assert(x.len() == y.len());
        assert(x[0] == y[0]);
    }
}

/// Writing a fill mode and parsing the name back gives the same mode.
pub proof fn law_fill_mode_round_trip(m: FillMode, s: &str)
    requires
        s@ == fill_mode_name(m),
    ensures
        forall|u: FillMode| #[trigger] fill_mode_name(u) == s@ ==> u == m,
{
    assert forall|u: FillMode| #[trigger] fill_mode_name(u) == s@ implies u == m by {
        lemma_fill_mode_names_distinct(u, m);
    }
}

// ---------------------------------------------------------------------------
// Keys and names
// ---------------------------------------------------------------------------
/// A character allowed in a field key.
pub open spec fn is_key_char(c: char) -> bool {
    is_ascii_lower(c) || is_ascii_digit(c) || c == '_'
}

/// A field key: a lower-case latin letter, then lower-case latin letters, digits
/// and `_`, at most 64 bytes in all.
pub open spec fn valid_key(k: Seq<char>) -> bool {
    &&& k.len() > 0
    &&& is_ascii_lower(k[0])
    &&& utf8_len(k) <= 64
    &&& forall|i: int| 0 <= i < k.len() ==> is_key_char(#[trigger] k[i])
}

pub fn is_valid_key(key: &str) -> (b: bool)
    ensures
        b == valid_key(key@),
{
    valid_key_chars(&chars_of(key))
}

/// `is_valid_key` on characters.
pub fn valid_key_chars(v: &Vec<char>) -> (b: bool)
    ensures
        b == valid_key(v@),
{
    if v.len() == 0 || !('a' <= v[0] && v[0] <= 'z') {
        return false;
    }
    if utf8_len_exceeds(&v, 64) {
        return false;
    }
    let mut i: usize = 0;
    while i < v.len()
        invariant
            i <= v.len(),
            v@.len() > 0 && is_ascii_lower(v@[0]) && utf8_len(v@) <= 64,
            forall|k: int| 0 <= k < i ==> is_key_char(#[trigger] v@[k]),
        decreases v.len() - i,
    {
        let c = v[i];
        if !(('a' <= c && c <= 'z') || ('0' <= c && c <= '9') || c == '_') {
            return false;
        }
        i = i + 1;
    }
    true
}

/// A user-given name trimmed, or the message it is refused with: nothing left
/// (`укажите …`) or more than 200 bytes (`… слишком длинное`). `what` names
/// the thing.
pub open spec fn name_result(name: Seq<char>, what: Seq<char>) -> Result<Seq<char>, Seq<char>> {
    let t = trim(name);
    if t.len() == 0 {
        Err("укажите "@ + what)
    } else if utf8_len(t) > 200 {
        Err(what + " слишком длинное"@)
    } else {
        Ok(t)
    }
}

/// Trims a user-given name; refuses it when nothing is left or when it is longer
/// than 200 bytes. `what` names the thing in the message.
pub fn require_name(name: &str, what: &str) -> (r: Result<String, AppError>)
    ensures
        match name_result(name@, what@) {
            Ok(n) => r matches Ok(s) && s@ == n,
            Err(m) => r matches Err(e) && is_bad(e, m),
        },
{
    let v = trim_chars(&chars_of(name));
    if v.len() == 0 {
        return Err(AppError::bad_prefixed("укажите ", &chars_of(what)));
    }
    if utf8_len_exceeds(&v, 200) {
        return Err(AppError::bad_suffixed(&chars_of(what), " слишком длинное"));
    }
    Ok(string_of(&v))
}

// ---------------------------------------------------------------------------
// Values entered into documents
// ---------------------------------------------------------------------------
/// A value given for a field, as the JSON it came in.
#[derive(Debug)]
pub enum FieldValue {
    Null,
    Bool(bool),
    /// A JSON number, in the text that JSON writes for it.
    Number(String),
    Str(String),
    /// An array or object, as its JSON text.
    Other(String),
}

impl Clone for FieldValue {
    fn clone(&self) -> (r: Self)
        ensures
            r == *self,
    {
        match self {
            FieldValue::Null => FieldValue::Null,
            FieldValue::Bool(b) => FieldValue::Bool(*b),
            FieldValue::Number(n) => FieldValue::Number(n.clone()),
            FieldValue::Str(s) => FieldValue::Str(s.clone()),
            FieldValue::Other(j) => FieldValue::Other(j.clone()),
        }
    }
}

/// A value as mathematics sees it.
pub enum ValueView {
    Null,
    Bool(bool),
    Number(Seq<char>),
    Str(Seq<char>),
    Other(Seq<char>),
}

impl View for FieldValue {
    type V = ValueView;

    open spec fn view(&self) -> ValueView {
        match self {
            FieldValue::Null => ValueView::Null,
            FieldValue::Bool(b) => ValueView::Bool(*b),
            FieldValue::Number(n) => ValueView::Number(n@),
            FieldValue::Str(s) => ValueView::Str(s@),
            FieldValue::Other(j) => ValueView::Other(j@),
        }
    }
}

/// The text a value stands for in a filled document.
pub open spec fn value_text_spec(v: FieldValue) -> Seq<char> {
    match v {
        FieldValue::Null => Seq::empty(),
        FieldValue::Str(s) => s@,
        FieldValue::Number(n) => n@,
        FieldValue::Bool(b) => if b {
            "да"@
        } else {
            "нет"@
        },
        FieldValue::Other(j) => j@,
    }
}

/// The text a value stands for in a filled document.
pub fn value_text(v: &FieldValue) -> (s: String)
    ensures
        s@ == value_text_spec(*v),
{
    match v {
        FieldValue::Null => String::new(),
        FieldValue::Str(s) => s.clone(),
        FieldValue::Number(n) => n.clone(),
        FieldValue::Bool(true) => "да".to_owned(),
        FieldValue::Bool(false) => "нет".to_owned(),
        FieldValue::Other(j) => j.clone(),
    }
}

/// The value given for `key`: the first pair with that key.
pub open spec fn lookup(values: Seq<(String, FieldValue)>, key: Seq<char>) -> Option<FieldValue>
    decreases values.len(),
{
    if values.len() == 0 {
        None
    } else if values[0].0@ == key {
        Some(values[0].1)
    } else {
        lookup(values.drop_first(), key)
    }
}

/// The value given for `key`, if any.
pub fn get_value(values: &Vec<(String, FieldValue)>, key: &str) -> (r: Option<FieldValue>)
    ensures
        r == lookup(values@, key@),
{
    let k = chars_of(key);
    let mut i: usize = 0;
    assert(values@.skip(0) =~= values@);
    while i < values.len()
        invariant
            i <= values.len(),
            k@ == key@,
            lookup(values@, key@) == lookup(values@.skip(i as int), key@),
        decreases values.len() - i,
    {
        assert(values@.skip(i as int).drop_first() =~= values@.skip(i + 1));
        if eq_chars(&chars_of(values[i].0.as_str()), &k) {
            return Some(values[i].1.clone());
        }
        i = i + 1;
    }
    None
}

// ---------------------------------------------------------------------------
// Records
// ---------------------------------------------------------------------------
/// A field of a template, as stored.
#[derive(Debug, Clone)]
pub struct Field {
    pub id: String,
    pub key: String,
    pub label: String,
    pub field_type: FieldType,
    pub required: bool,
    pub fill_mode: FillMode,
    pub options: Vec<String>,
    pub auto: bool,
    pub date_format: String,
    pub seq_start: i64,
    pub next: Option<i64>,
}

/// A field as a client sends it when a template is created or changed.
#[derive(Debug, Clone)]
pub struct FieldInput {
    pub id: Option<String>,
    pub key: String,
    pub label: String,
    pub field_type: FieldType,
    pub required: bool,
    pub options: Vec<String>,
    pub fill_mode: FillMode,
    pub auto: Option<bool>,
    pub date_format: Option<String>,
    pub seq_start: Option<i64>,
}

/// Where an attached original file came from.
#[derive(Debug, Clone)]
pub struct SourceInfo {
    pub name: String,
    pub mime: String,
}

/// Where an original is recorded: only under a non-empty name; its type is
/// `application/octet-stream` where none is recorded.
pub fn source_info(name: Option<String>, mime: Option<String>) -> (r: Option<SourceInfo>)
    ensures
        match name {
            Some(n) => if n@.len() > 0 {
                r matches Some(s) && s.name@ == n@ && s.mime@ == (match mime {
                    Some(m) => m@,
                    None => "application/octet-stream"@,
                })
            } else {
                r is None
            },
            None => r is None,
        },
{
    match name {
        Some(n) => {
            if chars_of(n.as_str()).len() == 0 {
                return None;
            }
            let m = match mime {
                Some(m) => m,
                None => "application/octet-stream".to_owned(),
            };
            Some(SourceInfo { name: n, mime: m })
        },
        None => None,
    }
}

#[derive(Debug, Clone)]
pub struct TemplateSummary {
    pub id: String,
    pub name: String,
    pub description: String,
    pub field_count: i64,
    pub document_count: i64,
    pub created_at: String,
    pub updated_at: String,
}

#[derive(Debug, Clone)]
pub struct TemplateDetail {
    pub id: String,
    pub name: String,
    pub description: String,
    pub body: String,
    pub source: Option<SourceInfo>,
    pub fields: Vec<Field>,
    pub document_count: i64,
    pub created_at: String,
    pub updated_at: String,
}

#[derive(Debug, Clone)]
pub struct UpsertTemplate {
    pub name: String,
    pub description: String,
    pub body: String,
    pub fields: Vec<FieldInput>,
}

#[derive(Debug, Clone)]
pub struct DocumentSummary {
    pub id: String,
    pub template_id: String,
    pub template_name: String,
    pub title: String,
    pub has_source: bool,
    pub created_at: String,
    pub updated_at: String,
}

#[derive(Debug, Clone)]
pub struct DocumentDetail {
    pub id: String,
    pub title: String,
    pub body: String,
    pub source: Option<SourceInfo>,
    pub template: TemplateDetail,
    pub values: Vec<(String, FieldValue)>,
    pub created_at: String,
    pub updated_at: String,
}

#[derive(Debug, Clone)]
pub struct UpsertDocument {
    pub template_id: String,
    pub title: String,
    pub body: String,
    pub values: Vec<(String, FieldValue)>,
}

#[derive(Debug, Clone)]
pub struct PatchDocument {
    pub title: String,
    pub body: String,
    pub values: Vec<(String, FieldValue)>,
}

/// A document brought in together with the form it is filled on: an existing
/// form (`form_id`) or a new one built from `form_name` and `fields`.
#[derive(Debug, Clone)]
pub struct ImportDocument {
    pub title: String,
    pub body: String,
    pub form_id: Option<String>,
    pub form_name: Option<String>,
    pub fields: Vec<FieldInput>,
    pub values: Vec<(String, FieldValue)>,
}

#[derive(Debug, Clone)]
pub struct Instance {
    pub id: String,
    pub name: String,
    pub created_at: String,
}

#[derive(Debug, Clone)]
pub struct PatchInstance {
    pub name: String,
    pub enabled_modules: Option<Vec<String>>,
}

#[derive(Debug, Clone)]
pub struct SetupInput {
    pub name: String,
    pub enabled_modules: Vec<String>,
}

#[derive(Debug, Clone)]
pub struct ModuleStatus {
    pub id: String,
    pub name: String,
    pub description: String,
    pub enabled: bool,
    pub available: bool,
    pub enabled_at: Option<String>,
}

#[derive(Debug, Clone)]
pub struct Stats {
    pub templates: i64,
    pub documents: i64,
    pub modules_enabled: i64,
}

} // verus!
