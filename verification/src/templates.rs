//! The rules for templates: what a template and its fields must look like
//! before they are stored, how a stored field is read back, and how a body is
//! filled.
use vstd::prelude::*;

use crate::error::{is_bad, AppError};
use crate::archive::{zip_bytes_of, EntryView};
use crate::docx::{archive_files, normalize_docx, rewrite_entry, writable};
use crate::marks::marks_spec;
use crate::paragraphs::normalize_fold;
use crate::json::{
    json_bool_member, json_bool_member_of, json_int_member, json_int_member_of, json_quoted,
    json_string_text, json_text_list, json_text_list_of, json_text_member, json_text_member_of,
};
use crate::layout::{fill_fold, fill_placeholders, or_default, to_html, to_html_spec, Layout};
use crate::model::{
    field_type_name, fill_mode_name, name_result, require_name, valid_key, valid_key_chars, Field, FieldInput, FieldType,
    FieldValue, FillMode,
};
use crate::text::{
    chars_of, dec_i64, dec_int, eq_chars, push_all, push_str, string_of, trim, trim_chars,
    utf8_len, utf8_len_exceeds,
};

verus! {

// ---------------------------------------------------------------------------
// Fields as they will be stored
// ---------------------------------------------------------------------------
/// A field ready to be stored, with its options and settings as JSON text.
#[derive(Debug, Clone)]
pub struct PreparedField {
    pub id: String,
    pub key: String,
    pub label: String,
    pub field_type: FieldType,
    pub required: bool,
    pub fill_mode: FillMode,
    pub options_json: Option<String>,
    pub config_json: String,
}

/// What a prepared field holds, its identifier aside.
pub struct FieldPlan {
    pub key: Seq<char>,
    pub label: Seq<char>,
    pub field_type: FieldType,
    pub required: bool,
    pub fill_mode: FillMode,
    pub options_json: Option<Seq<char>>,
    pub config_json: Seq<char>,
}

/// The plan that a prepared field carries out.
pub open spec fn plan_of(p: PreparedField) -> FieldPlan {
    FieldPlan {
        key: p.key@,
        label: p.label@,
        field_type: p.field_type,
        required: p.required,
        fill_mode: p.fill_mode,
        options_json: match p.options_json {
            Some(s) => Some(s@),
            None => None,
        },
        config_json: p.config_json@,
    }
}

/// Whether a fill mode fills the field by itself.
pub open spec fn fills_itself(m: FillMode) -> bool {
    m is CreatedAt || m is Sequence
}

/// Whether the field fills itself: as asked, or as its fill mode implies.
pub open spec fn auto_of(input: FieldInput) -> bool {
    match input.auto {
        Some(b) => b,
        None => fills_itself(input.fill_mode),
    }
}

/// The fill mode and type a field ends up with: a date that fills itself is the
/// creation date, a number that fills itself a sequence; a field asked to be the
/// creation date is a date, one asked to be a sequence a number.
pub open spec fn mode_and_type(input: FieldInput) -> (FillMode, FieldType) {
    let auto = auto_of(input);
    if input.field_type is Date && auto {
        (FillMode::CreatedAt, FieldType::Date)
    } else if input.field_type is Number && auto {
        (FillMode::Sequence, FieldType::Number)
    } else if input.fill_mode is CreatedAt {
        (FillMode::CreatedAt, FieldType::Date)
    } else if input.fill_mode is Sequence {
        (FillMode::Sequence, FieldType::Number)
    } else {
        (FillMode::Manual, input.field_type)
    }
}

/// The date format asked for, trimmed; `d.m.Y` where none is.
pub open spec fn date_format_of(input: FieldInput) -> Seq<char> {
    trim(or_default(input.date_format, "d.m.Y"@))
}

/// The first number of a sequence: as asked, at least 1.
pub open spec fn seq_start_of(input: FieldInput) -> i64 {
    let s: i64 = match input.seq_start {
        Some(n) => n,
        None => 1,
    };
    if s < 1 {
        1
    } else {
        s
    }
}

/// `true` or `false` as JSON writes them.
pub open spec fn bool_json(b: bool) -> Seq<char> {
    if b {
        "true"@
    } else {
        "false"@
    }
}

/// The stored settings of a field: a JSON object with its keys in order.
pub open spec fn config_json_spec(date_format: Seq<char>, auto: bool, seq_start: i64) -> Seq<char> {
    "{\"auto\":"@ + bool_json(auto) + ",\"date_format\":"@ + json_string_text(date_format)
        + ",\"seq_start\":"@ + dec_int(seq_start as int) + "}"@
}

/// The options of a list, trimmed, the empty ones dropped.
pub open spec fn clean_options(opts: Seq<String>) -> Seq<Seq<char>>
    decreases opts.len(),
{
    if opts.len() == 0 {
        Seq::empty()
    } else {
        let t = trim(opts[0]@);
        (if t.len() == 0 {
            Seq::empty()
        } else {
            seq![t]
        }) + clean_options(opts.drop_first())
    }
}

/// The JSON strings of `items`, separated by commas.
pub open spec fn json_items(items: Seq<Seq<char>>) -> Seq<char>
    decreases items.len(),
{
    if items.len() == 0 {
        Seq::empty()
    } else if items.len() == 1 {
        json_string_text(items[0])
    } else {
        json_string_text(items[0]) + ","@ + json_items(items.drop_first())
    }
}

/// A JSON array of strings.
pub open spec fn json_list(items: Seq<Seq<char>>) -> Seq<char> {
    "["@ + json_items(items) + "]"@
}

/// What becomes of one field under the key `key`, or the message it is refused with.
pub open spec fn plan_field(input: FieldInput, key: Seq<char>) -> Result<FieldPlan, Seq<char>> {
    match name_result(input.label@, "подпись поля"@) {
        Err(m) => Err(m),
        Ok(label) => {
            let auto = auto_of(input);
            let (mode, t) = mode_and_type(input);
            let required = mode is Manual && input.required && !(t is Checkbox);
            let config = config_json_spec(date_format_of(input), auto, seq_start_of(input));
            if t is Select {
                let opts = clean_options(input.options@);
                if opts.len() < 2 {
                    Err("у списка «"@ + label + "» должно быть хотя бы два варианта"@)
                } else {
                    Ok(
                        FieldPlan {
                            key,
                            label,
                            field_type: t,
                            required,
                            fill_mode: mode,
                            options_json: Some(json_list(opts)),
                            config_json: config,
                        },
                    )
                }
            } else {
                Ok(
                    FieldPlan {
                        key,
                        label,
                        field_type: t,
                        required,
                        fill_mode: mode,
                        options_json: None,
                        config_json: config,
                    },
                )
            }
        },
    }
}

/// The fields in turn, the keys in `seen` taken already; the first refusal wins.
pub open spec fn plan_fields(inputs: Seq<FieldInput>, seen: Seq<Seq<char>>) -> Result<
    Seq<FieldPlan>,
    Seq<char>,
>
    decreases inputs.len(),
{
    if inputs.len() == 0 {
        Ok(Seq::empty())
    } else {
        let key = trim(inputs[0].key@);
        if !valid_key(key) {
            Err("ключ «"@ + key + "» недопустим: латиница, цифры и _, начинается с буквы"@)
        } else if seen.contains(key) {
            Err("ключ «"@ + key + "» повторяется"@)
        } else {
            match plan_field(inputs[0], key) {
                Err(e) => Err(e),
                Ok(p) => match plan_fields(inputs.drop_first(), seen.push(key)) {
                    Err(e) => Err(e),
                    Ok(rest) => Ok(seq![p] + rest),
                },
            }
        }
    }
}

/// The fields of a template as they will be stored: at most 80, with valid keys
/// that differ, a label each, and at least two options for a list.
pub open spec fn prepare_spec(inputs: Seq<FieldInput>) -> Result<Seq<FieldPlan>, Seq<char>> {
    if inputs.len() > 80 {
        Err("слишком много полей"@)
    } else {
        plan_fields(inputs, Seq::empty())
    }
}

/// `r` after the plans in `done`.
pub open spec fn after(done: Seq<FieldPlan>, r: Result<Seq<FieldPlan>, Seq<char>>) -> Result<
    Seq<FieldPlan>,
    Seq<char>,
> {
    match r {
        Ok(rest) => Ok(done + rest),
        Err(e) => Err(e),
    }
}

/// Whether `ids` holds `id`.
pub open spec fn has_id(ids: Seq<String>, id: Seq<char>) -> bool {
    exists|k: int| 0 <= k < ids.len() && ids[k]@ == id
}

/// Whether a field keeps the identifier it came with: it has one, and it is one
/// of the template's present fields.
pub open spec fn keeps_id(input: FieldInput, existing: Option<&Vec<String>>) -> bool {
    match (input.id, existing) {
        (Some(id), Some(ids)) => id@.len() > 0 && has_id(ids@, id@),
        _ => false,
    }
}

/// A UUID as text: 36 characters, hyphens at 8, 13, 18 and 23, lower-case
/// hexadecimal digits everywhere else.
pub open spec fn uuid_text(s: Seq<char>) -> bool {
    &&& s.len() == 36
    &&& forall|i: int|
        0 <= i < 36 ==> if i == 8 || i == 13 || i == 18 || i == 23 {
            #[trigger] s[i] == '-'
        } else {
            ('0' <= s[i] <= '9') || ('a' <= s[i] <= 'f')
        }
}

/// Wraps `uuid::Uuid::new_v4` written as text (`Display`, the hyphenated
/// lower-case form). The identifier is random: only its shape is stated.
#[verifier::external_body]
fn new_id() -> (s: String)
    ensures
        uuid_text(s@),
{
    uuid::Uuid::new_v4().to_string()
}

/// The identifier a field is stored under: the one it came with where it keeps
/// it, a fresh random one otherwise.
pub fn field_id(input: &FieldInput, existing_ids: Option<&Vec<String>>) -> (s: String)
    ensures
        keeps_id(*input, existing_ids) ==> s@ == input.id->Some_0@,
        !keeps_id(*input, existing_ids) ==> uuid_text(s@),
{
    if let Some(id) = &input.id {
        if let Some(existing) = existing_ids {
            let want = chars_of(id.as_str());
            if want.len() > 0 {
                let mut i: usize = 0;
                while i < existing.len()
                    invariant
                        i <= existing.len(),
                        want@ == id@,
                        id@.len() > 0,
                        existing_ids == Some(existing),
                        input.id == Some(*id),
                        forall|k: int| 0 <= k < i ==> existing@[k]@ != id@,
                    decreases existing.len() - i,
                {
                    if eq_chars(&chars_of(existing[i].as_str()), &want) {
                        assert(existing@[i as int]@ == id@);
                        return string_of(&want);
                    }
                    i = i + 1;
                }
            }
        }
    }
    new_id()
}

/// The characters of each item.
pub open spec fn views(items: Seq<Vec<char>>) -> Seq<Seq<char>> {
    items.map_values(|v: Vec<char>| v@)
}

fn clean_options_exec(opts: &Vec<String>) -> (out: Vec<Vec<char>>)
    ensures
        views(out@) == clean_options(opts@),
{
    let mut out: Vec<Vec<char>> = Vec::new();
    let mut i: usize = 0;
    assert(opts@.skip(0) =~= opts@);
    assert(views(out@) =~= Seq::<Seq<char>>::empty());
    while i < opts.len()
        invariant
            i <= opts.len(),
            clean_options(opts@) == views(out@) + clean_options(opts@.skip(i as int)),
        decreases opts.len() - i,
    {
        let ghost before = views(out@);
        assert(opts@.skip(i as int).drop_first() =~= opts@.skip(i + 1));
        assert(opts@.skip(i as int)[0] == opts@[i as int]);
        let t = trim_chars(&chars_of(opts[i].as_str()));
        if t.len() > 0 {
            out.push(t);
            assert(views(out@) =~= before + seq![t@]);
        } else {
            assert(views(out@) =~= before);
        }
        i = i + 1;
    }
    assert(opts@.skip(i as int) =~= Seq::<String>::empty());
    assert(views(out@) + Seq::<Seq<char>>::empty() =~= views(out@));
    out
}

fn json_list_exec(items: &Vec<Vec<char>>) -> (out: Vec<char>)
    ensures
        out@ == json_list(views(items@)),
{
    let ghost all = views(items@);
    proof {
        reveal_strlit("[");
        reveal_strlit("]");
        reveal_strlit(",");
    }
    let mut out: Vec<char> = vec!['['];
    let mut i: usize = 0;
    assert(all.skip(0) =~= all);
    while i < items.len()
        invariant
            i <= items.len(),
            all == views(items@),
            json_list(all) == out@ + json_items(all.skip(i as int)) + "]"@,
        decreases items.len() - i,
    {
        let ghost rest = all.skip(i as int);
        assert(rest[0] == all[i as int]);
        assert(all[i as int] == items@[i as int]@);
        assert(rest.drop_first() =~= all.skip(i + 1));
        let q = json_quoted(string_of(&items[i]).as_str());
        let ghost before = out@;
        push_all(&mut out, &chars_of(q.as_str()));
        if i + 1 < items.len() {
            let ghost mid = out@;
            out.push(',');
            proof {
                reveal_strlit(",");
            }
            assert(mid == before + json_string_text(all[i as int]));
            assert(out@ =~= mid + ","@);
            assert(json_items(rest) == json_string_text(all[i as int]) + ","@ + json_items(all.skip(i + 1)));
            assert(before + json_items(rest) =~= out@ + json_items(all.skip(i + 1)));
        } else {
            assert(all.skip(i + 1) =~= Seq::<Seq<char>>::empty());
            assert(json_items(rest) == json_string_text(all[i as int]));
            assert(before + json_items(rest) =~= out@ + json_items(all.skip(i + 1)));
        }
        i = i + 1;
    }
    assert(all.skip(i as int) =~= Seq::<Seq<char>>::empty());
    out.push(']');
    assert(out@ =~= json_list(all));
    out
}

fn config_json_exec(date_format: &Vec<char>, auto: bool, seq_start: i64) -> (out: Vec<char>)
    ensures
        out@ == config_json_spec(date_format@, auto, seq_start),
{
    let mut out: Vec<char> = chars_of("{\"auto\":");
    if auto {
        push_str(&mut out, "true");
    } else {
        push_str(&mut out, "false");
    }
    push_str(&mut out, ",\"date_format\":");
    let q = json_quoted(string_of(date_format).as_str());
    push_all(&mut out, &chars_of(q.as_str()));
    push_str(&mut out, ",\"seq_start\":");
    push_all(&mut out, &dec_i64(seq_start));
    push_str(&mut out, "}");
    assert(out@ =~= config_json_spec(date_format@, auto, seq_start));
    out
}

fn mode_and_type_exec(input: &FieldInput) -> (r: (FillMode, FieldType, bool))
    ensures
        (r.0, r.1) == mode_and_type(*input),
        r.2 == auto_of(*input),
{
    let auto = match input.auto {
        Some(b) => b,
        None => match input.fill_mode {
            FillMode::Manual => false,
            _ => true,
        },
    };
    let t = input.field_type;
    if matches!(t, FieldType::Date) && auto {
        (FillMode::CreatedAt, FieldType::Date, auto)
    } else if matches!(t, FieldType::Number) && auto {
        (FillMode::Sequence, FieldType::Number, auto)
    } else if matches!(input.fill_mode, FillMode::CreatedAt) {
        (FillMode::CreatedAt, FieldType::Date, auto)
    } else if matches!(input.fill_mode, FillMode::Sequence) {
        (FillMode::Sequence, FieldType::Number, auto)
    } else {
        (FillMode::Manual, t, auto)
    }
}

/// One field stored under `key`, or the refusal.
fn prepare_one(input: &FieldInput, key: &Vec<char>, existing_ids: Option<&Vec<String>>) -> (r: Result<PreparedField, AppError>)
    ensures
        match plan_field(*input, key@) {
            Ok(p) => r matches Ok(f) && plan_of(f) == p && (keeps_id(*input, existing_ids) ==> f.id@
                == input.id->Some_0@),
            Err(m) => r matches Err(e) && is_bad(e, m),
        },
{
    let label = match require_name(input.label.as_str(), "подпись поля") {
        Ok(l) => l,
        Err(e) => {
            return Err(e);
        },
    };
    let (mode, t, auto) = mode_and_type_exec(input);
    let required = matches!(mode, FillMode::Manual) && input.required && !matches!(t, FieldType::Checkbox);
    let df = match &input.date_format {
        Some(d) => trim_chars(&chars_of(d.as_str())),
        None => chars_of("d.m.Y"),
    };
    proof {
        reveal_strlit("d.m.Y");
        if input.date_format is None {
            assert(trim("d.m.Y"@) =~= "d.m.Y"@) by {
                assert(!crate::text::is_ws("d.m.Y"@[0]));
                assert(!crate::text::is_ws("d.m.Y"@[4]));
            }
        }
    }
    let seq_start: i64 = match input.seq_start {
        Some(n) => if n < 1 { 1 } else { n },
        None => 1,
    };
    let config = config_json_exec(&df, auto, seq_start);
    let options_json: Option<String> = if matches!(t, FieldType::Select) {
        let opts = clean_options_exec(&input.options);
        if opts.len() < 2 {
            return Err(AppError::bad_around("у списка «", &chars_of(label.as_str()), "» должно быть хотя бы два варианта"));
        }
        Some(string_of(&json_list_exec(&opts)))
    } else {
        None
    };
    let id = field_id(input, existing_ids);
    Ok(PreparedField {
        id,
        key: string_of(key),
        label,
        field_type: t,
        required,
        fill_mode: mode,
        options_json,
        config_json: string_of(&config),
    })
}

/// The plans that prepared fields carry out.
pub open spec fn plans(v: Seq<PreparedField>) -> Seq<FieldPlan> {
    v.map_values(|p: PreparedField| plan_of(p))
}

fn holds_chars(seen: &Vec<Vec<char>>, key: &Vec<char>) -> (b: bool)
    ensures
        b == views(seen@).contains(key@),
{
    let mut i: usize = 0;
    while i < seen.len()
        invariant
            i <= seen.len(),
            forall|k: int| 0 <= k < i ==> seen@[k]@ != key@,
        decreases seen.len() - i,
    {
        if eq_chars(&seen[i], key) {
            assert(views(seen@)[i as int] == key@);
            return true;
        }
        i = i + 1;
    }
    proof {
        if views(seen@).contains(key@) {
            let k = choose|k: int| 0 <= k < views(seen@).len() && views(seen@)[k] == key@;
            assert(seen@[k]@ == key@);
        }
    }
    false
}

/// The fields of a template made ready to store, in order, or the first
/// refusal. A field keeps its identifier where it comes with one of
/// `existing_ids`; the others get fresh ones.
pub fn prepare_fields(inputs: &Vec<FieldInput>, existing_ids: Option<&Vec<String>>) -> (r: Result<
    Vec<PreparedField>,
    AppError,
>)
    ensures
        match prepare_spec(inputs@) {
            Ok(ps) => r matches Ok(v) && plans(v@) == ps && (forall|k: int|
                0 <= k < v@.len() && keeps_id(#[trigger] inputs@[k], existing_ids) ==> v@[k].id@
                    == inputs@[k].id->Some_0@),
            Err(m) => r matches Err(e) && is_bad(e, m),
        },
{
    if inputs.len() > 80 {
        return Err(AppError::bad("слишком много полей"));
    }
    let mut out: Vec<PreparedField> = Vec::new();
    let mut seen: Vec<Vec<char>> = Vec::new();
    let mut i: usize = 0;
    assert(inputs@.skip(0) =~= inputs@);
    assert(plans(out@) =~= Seq::<FieldPlan>::empty());
    assert(views(seen@) =~= Seq::<Seq<char>>::empty());
    while i < inputs.len()
        invariant
            i <= inputs.len(),
            inputs.len() <= 80,
            out@.len() == i,
            plan_fields(inputs@, Seq::empty()) == after(
                plans(out@),
                plan_fields(inputs@.skip(i as int), views(seen@)),
            ),
            forall|k: int|
                0 <= k < i && keeps_id(#[trigger] inputs@[k], existing_ids) ==> out@[k].id@
                    == inputs@[k].id->Some_0@,
        decreases inputs.len() - i,
    {
        let ghost rest = inputs@.skip(i as int);
        assert(rest[0] == inputs@[i as int]);
        assert(rest.drop_first() =~= inputs@.skip(i + 1));
        let key = trim_chars(&chars_of(inputs[i].key.as_str()));
        if !valid_key_chars(&key) {
            return Err(AppError::bad_around("ключ «", &key, "» недопустим: латиница, цифры и _, начинается с буквы"));
        }
        if holds_chars(&seen, &key) {
            return Err(AppError::bad_around("ключ «", &key, "» повторяется"));
        }
        let f = match prepare_one(&inputs[i], &key, existing_ids) {
            Ok(f) => f,
            Err(e) => {
                return Err(e);
            },
        };
        let ghost before = plans(out@);
        let ghost seen_before = views(seen@);
        out.push(f);
        seen.push(key);
        assert(plans(out@) =~= before.push(plan_of(f)));
        assert(views(seen@) =~= seen_before.push(key@));
        proof {
            let tail = plan_fields(inputs@.skip(i + 1), views(seen@));
            match tail {
                Ok(t) => {
                    assert(before + (seq![plan_of(f)] + t) =~= before.push(plan_of(f)) + t);
                },
                Err(_) => {},
            }
        }
        i = i + 1;
    }
    assert(inputs@.skip(i as int) =~= Seq::<FieldInput>::empty());
    assert(plans(out@) + Seq::<FieldPlan>::empty() =~= plans(out@));
    Ok(out)
}

/// What [`plan_fields`] gives holds, for each field in turn, the trimmed key it
/// came with, valid and taken neither before nor by another field, and settings
/// that agree with each other.
pub proof fn lemma_plan_fields(inputs: Seq<FieldInput>, seen: Seq<Seq<char>>)
    requires
        plan_fields(inputs, seen) is Ok,
    ensures
        ({
            let ps = plan_fields(inputs, seen)->Ok_0;
            &&& ps.len() == inputs.len()
            &&& forall|k: int| 0 <= k < ps.len() ==> #[trigger] ps[k].key == trim(inputs[k].key@)
            &&& forall|k: int| 0 <= k < ps.len() ==> valid_key(#[trigger] ps[k].key)
            &&& forall|k: int| 0 <= k < ps.len() ==> !seen.contains(#[trigger] ps[k].key)
            &&& forall|j: int, k: int| 0 <= j < k < ps.len() ==> #[trigger] ps[j].key != #[trigger] ps[k].key
            &&& forall|k: int| 0 <= k < ps.len() ==> plan_consistent(#[trigger] ps[k])
            &&& forall|k: int|
                0 <= k < ps.len() ==> (#[trigger] ps[k]).required == (inputs[k].required
                    && ps[k].fill_mode is Manual && !(ps[k].field_type is Checkbox))
            &&& forall|k: int|
                0 <= k < ps.len() ==> plan_field(inputs[k], trim(inputs[k].key@)) == Ok::<
                    FieldPlan,
                    Seq<char>,
                >(#[trigger] ps[k])
        }),
    decreases inputs.len(),
{
    if inputs.len() > 0 {
        let key = trim(inputs[0].key@);
        let p = plan_field(inputs[0], key)->Ok_0;
        lemma_plan_field_consistent(inputs[0], key);
        lemma_plan_fields(inputs.drop_first(), seen.push(key));
        let rest = plan_fields(inputs.drop_first(), seen.push(key))->Ok_0;
        let ps = plan_fields(inputs, seen)->Ok_0;
        assert(ps == seq![p] + rest);
        assert forall|k: int| 0 < k < ps.len() implies !seen.contains(#[trigger] ps[k].key) && ps[k].key != key by {
            assert(ps[k] == rest[k - 1]);
            assert(!seen.push(key).contains(rest[k - 1].key));
            if seen.contains(ps[k].key) {
                let i = choose|i: int| 0 <= i < seen.len() && seen[i] == ps[k].key;
                assert(seen.push(key)[i] == ps[k].key);
            }
            assert(seen.push(key)[seen.len() as int] == key);
        }
        assert forall|k: int| 0 < k < ps.len() implies #[trigger] ps[k].key == trim(inputs[k].key@) by {
            assert(ps[k] == rest[k - 1]);
            assert(inputs.drop_first()[k - 1] == inputs[k]);
        }
        assert forall|j: int, k: int| 0 <= j < k < ps.len() implies #[trigger] ps[j].key != #[trigger] ps[k].key by {
            if j > 0 {
                assert(ps[j] == rest[j - 1]);
                assert(ps[k] == rest[k - 1]);
            }
        }
        assert forall|k: int| 0 <= k < ps.len() implies plan_consistent(#[trigger] ps[k]) by {
            if k > 0 {
                assert(ps[k] == rest[k - 1]);
            }
        }
        assert forall|k: int| 0 <= k < ps.len() implies (#[trigger] ps[k]).required == (
        inputs[k].required && ps[k].fill_mode is Manual && !(ps[k].field_type is Checkbox)) by {
            if k > 0 {
                assert(ps[k] == rest[k - 1]);
                assert(inputs.drop_first()[k - 1] == inputs[k]);
            }
        }
        assert forall|k: int| 0 <= k < ps.len() implies plan_field(inputs[k], trim(inputs[k].key@))
            == Ok::<FieldPlan, Seq<char>>(#[trigger] ps[k]) by {
            if k > 0 {
                assert(ps[k] == rest[k - 1]);
                assert(inputs.drop_first()[k - 1] == inputs[k]);
            }
        }
    }
}

/// The settings of a planned field agree with each other: a field filled with
/// the creation date is a date, one filled from a sequence a number; only a
/// field typed in by hand, and no checkbox, is required; only a list has options.
pub open spec fn plan_consistent(p: FieldPlan) -> bool {
    &&& p.fill_mode is CreatedAt ==> p.field_type is Date
    &&& p.fill_mode is Sequence ==> p.field_type is Number
    &&& p.required ==> p.fill_mode is Manual && !(p.field_type is Checkbox)
    &&& (p.options_json is Some <==> p.field_type is Select)
}

proof fn lemma_plan_field_consistent(input: FieldInput, key: Seq<char>)
    ensures
        plan_field(input, key) matches Ok(p) ==> p.key == key && plan_consistent(p) && p.required == (
        input.required && p.fill_mode is Manual && !(p.field_type is Checkbox)),
{
}

/// What filling one planned field comes to, against what its input asked.
pub open spec fn filled_as_asked(i: FieldInput, p: FieldPlan) -> bool {
    &&& (i.field_type is Date && auto_of(i)) ==> p.fill_mode is CreatedAt && p.field_type is Date
    &&& (i.field_type is Number && auto_of(i)) ==> p.fill_mode is Sequence && p.field_type is Number
    &&& (i.fill_mode is CreatedAt && !(i.field_type is Number && auto_of(i))) ==> p.fill_mode is CreatedAt
        && p.field_type is Date
    &&& (i.fill_mode is Sequence && !(i.field_type is Date && auto_of(i))) ==> p.fill_mode is Sequence
        && p.field_type is Number
    &&& (i.fill_mode is Manual && !auto_of(i)) ==> p.fill_mode is Manual && p.field_type == i.field_type
}

proof fn lemma_plan_field_filled_as_asked(input: FieldInput, key: Seq<char>)
    ensures
        plan_field(input, key) matches Ok(p) ==> filled_as_asked(input, p),
{
}

/// Law: a field ends up filled as it was asked: a date or number that fills
/// itself takes the creation date or the next number of a sequence; a field
/// asked to take the creation date is a date, one asked to count a sequence a
/// number (where it is not a number, or a date, that fills itself); a field
/// typed in by hand that does not fill itself keeps its type.
pub proof fn law_prepared_fill_modes(inputs: Seq<FieldInput>)
    requires
        prepare_spec(inputs) is Ok,
    ensures
        forall|k: int|
            0 <= k < inputs.len() ==> filled_as_asked(inputs[k], #[trigger] prepare_spec(inputs)->Ok_0[k]),
{
    lemma_plan_fields(inputs, Seq::empty());
    let ps = prepare_spec(inputs)->Ok_0;
    assert forall|k: int| 0 <= k < inputs.len() implies filled_as_asked(inputs[k], #[trigger] ps[k]) by {
        lemma_plan_field_filled_as_asked(inputs[k], trim(inputs[k].key@));
    }
}

/// Law: a field is required only where it was asked to be, and then exactly
/// where it is typed in by hand and is no checkbox: whoever leaves an
/// optional field empty is never refused for it.
pub proof fn law_required_only_as_asked(inputs: Seq<FieldInput>)
    requires
        prepare_spec(inputs) is Ok,
    ensures
        forall|k: int|
            0 <= k < prepare_spec(inputs)->Ok_0.len() ==> (#[trigger] prepare_spec(inputs)->Ok_0[k]).required
                == (inputs[k].required && prepare_spec(inputs)->Ok_0[k].fill_mode is Manual
                && !(prepare_spec(inputs)->Ok_0[k].field_type is Checkbox)),
        forall|k: int|
            0 <= k < prepare_spec(inputs)->Ok_0.len() && (#[trigger] prepare_spec(inputs)->Ok_0[k]).required
                ==> inputs[k].required,
{
    lemma_plan_fields(inputs, Seq::empty());
}

/// Law: the fields of a template, once accepted, are as many as were sent, each
/// under its key trimmed; the keys are valid and pairwise different; and each
/// field's settings agree with each other (see [`plan_consistent`]).
pub proof fn law_prepared_fields_well_formed(inputs: Seq<FieldInput>)
    requires
        prepare_spec(inputs) is Ok,
    ensures
        ({
            let ps = prepare_spec(inputs)->Ok_0;
            &&& ps.len() == inputs.len() <= 80
            &&& forall|k: int| 0 <= k < ps.len() ==> #[trigger] ps[k].key == trim(inputs[k].key@)
            &&& forall|k: int| 0 <= k < ps.len() ==> valid_key(#[trigger] ps[k].key)
            &&& forall|j: int, k: int| 0 <= j < k < ps.len() ==> #[trigger] ps[j].key != #[trigger] ps[k].key
            &&& forall|k: int| 0 <= k < ps.len() ==> plan_consistent(#[trigger] ps[k])
        }),
{
    lemma_plan_fields(inputs, Seq::empty());
}

// ---------------------------------------------------------------------------
// Templates as they will be stored
// ---------------------------------------------------------------------------
/// The largest body a template or a document may have, in bytes.
pub const MAX_BODY_BYTES: usize = 200000;

/// A template's body, refused where it is longer than 200 000 bytes.
pub fn clamp_body(body: &str) -> (r: Result<String, AppError>)
    ensures
        utf8_len(body@) > 200000 ==> (r matches Err(e) && is_bad(e, "текст шаблона слишком длинный"@)),
        utf8_len(body@) <= 200000 ==> (r matches Ok(b) && b@ == body@),
{
    let v = chars_of(body);
    if utf8_len_exceeds(&v, MAX_BODY_BYTES) {
        return Err(AppError::bad("текст шаблона слишком длинный"));
    }
    Ok(string_of(&v))
}

/// A template ready to be stored.
#[derive(Debug, Clone)]
pub struct CheckedTemplate {
    pub name: String,
    pub description: String,
    pub body: String,
    pub fields: Vec<PreparedField>,
}

/// What a checked template holds, its field identifiers aside.
pub struct TemplatePlan {
    pub name: Seq<char>,
    pub description: Seq<char>,
    pub body: Seq<char>,
    pub fields: Seq<FieldPlan>,
}

/// What becomes of a template as sent, or the first refusal: its name, its
/// description (trimmed, at most 2000 bytes), its body, then its fields.
pub open spec fn template_spec(input: crate::model::UpsertTemplate) -> Result<TemplatePlan, Seq<char>> {
    match name_result(input.name@, "название шаблона"@) {
        Err(m) => Err(m),
        Ok(name) => {
            let description = trim(input.description@);
            if utf8_len(description) > 2000 {
                Err("описание слишком длинное"@)
            } else if utf8_len(input.body@) > 200000 {
                Err("текст шаблона слишком длинный"@)
            } else {
                match prepare_spec(input.fields@) {
                    Err(m) => Err(m),
                    Ok(fields) => Ok(TemplatePlan { name, description, body: input.body@, fields }),
                }
            }
        },
    }
}

/// Checks a template as sent before it is created (`existing_ids` is `None`)
/// or changed (the identifiers of its present fields).
pub fn check_template(input: &crate::model::UpsertTemplate, existing_ids: Option<&Vec<String>>) -> (r: Result<
    CheckedTemplate,
    AppError,
>)
    ensures
        match template_spec(*input) {
            Ok(t) => r matches Ok(c) && c.name@ == t.name && c.description@ == t.description
                && c.body@ == t.body && plans(c.fields@) == t.fields && (forall|k: int|
                0 <= k < c.fields@.len() && keeps_id(#[trigger] input.fields@[k], existing_ids)
                    ==> c.fields@[k].id@ == input.fields@[k].id->Some_0@),
            Err(m) => r matches Err(e) && is_bad(e, m),
        },
{
    let name = match require_name(input.name.as_str(), "название шаблона") {
        Ok(n) => n,
        Err(e) => {
            return Err(e);
        },
    };
    let description = trim_chars(&chars_of(input.description.as_str()));
    if utf8_len_exceeds(&description, 2000) {
        return Err(AppError::bad("описание слишком длинное"));
    }
    let body = match clamp_body(input.body.as_str()) {
        Ok(b) => b,
        Err(e) => {
            return Err(e);
        },
    };
    let fields = match prepare_fields(&input.fields, existing_ids) {
        Ok(f) => f,
        Err(e) => {
            return Err(e);
        },
    };
    Ok(CheckedTemplate { name, description: string_of(&description), body, fields })
}

/// The refusal to delete a template that `count` documents were made from.
pub fn check_deletable(count: i64) -> (r: Result<(), AppError>)
    ensures
        count <= 0 ==> r is Ok,
        count > 0 ==> (r matches Err(AppError::Conflict(m)) && m@
            == "нельзя удалить шаблон: по нему уже есть документы ("@ + dec_int(count as int) + ")"@),
{
    if count > 0 {
        return Err(AppError::conflict_around("нельзя удалить шаблон: по нему уже есть документы (", &dec_i64(count), ")"));
    }
    Ok(())
}

// ---------------------------------------------------------------------------
// Stored fields read back
// ---------------------------------------------------------------------------
/// A field's settings: its date format (`d.m.Y` where none or an empty one is
/// stored), whether it fills itself (as its fill mode implies where nothing is
/// stored) and the first number of its sequence (at least 1, and 1 where nothing
/// is stored), from the members read out of the stored JSON.
pub open spec fn config_spec(fill_mode: FillMode, date_format: Option<Seq<char>>, auto: Option<bool>, seq_start: Option<i64>) -> (Seq<char>, bool, i64) {
    let df = match date_format {
        Some(s) => if s.len() > 0 {
            s
        } else {
            "d.m.Y"@
        },
        None => "d.m.Y"@,
    };
    let a = match auto {
        Some(b) => b,
        None => fills_itself(fill_mode),
    };
    let n: i64 = match seq_start {
        Some(n) => if n < 1 {
            1
        } else {
            n
        },
        None => 1,
    };
    (df, a, n)
}

/// A field's settings from the members read out of its stored JSON.
pub fn config_from(fill_mode: FillMode, date_format: Option<String>, auto: Option<bool>, seq_start: Option<i64>) -> (r: (String, bool, i64))
    ensures
        (r.0@, r.1, r.2) == config_spec(
            fill_mode,
            match date_format {
                Some(s) => Some(s@),
                None => None,
            },
            auto,
            seq_start,
        ),
{
    let df = match date_format {
        Some(s) => if chars_of(s.as_str()).len() > 0 {
            s
        } else {
            "d.m.Y".to_owned()
        },
        None => "d.m.Y".to_owned(),
    };
    let a = match auto {
        Some(b) => b,
        None => match fill_mode {
            FillMode::Manual => false,
            _ => true,
        },
    };
    let n: i64 = match seq_start {
        Some(n) => if n < 1 {
            1
        } else {
            n
        },
        None => 1,
    };
    (df, a, n)
}

/// The settings of a field from the JSON stored for it (`raw`, where there is
/// any): its date format, whether it fills itself, the first number of its
/// sequence.
pub fn parse_config(raw: Option<&str>, fill_mode: FillMode) -> (r: (String, bool, i64))
    ensures
        raw is None ==> (r.0@, r.1, r.2) == config_spec(fill_mode, None, None, None),
        raw matches Some(t) ==> (r.0@, r.1, r.2) == config_spec(
            fill_mode,
            json_text_member_of(t@, "date_format"@),
            json_bool_member_of(t@, "auto"@),
            json_int_member_of(t@, "seq_start"@),
        ),
{
    match raw {
        None => config_from(fill_mode, None, None, None),
        Some(t) => {
            let df = json_text_member(t, "date_format");
            let a = json_bool_member(t, "auto");
            let n = json_int_member(t, "seq_start");
            config_from(fill_mode, df, a, n)
        },
    }
}

/// The options read from what is stored for a field: none where nothing or an
/// empty text is stored, otherwise the stored JSON list of strings.
pub open spec fn stored_options_spec(options_json: Option<String>) -> Seq<Seq<char>> {
    match options_json {
        None => Seq::empty(),
        Some(raw) => if raw@.len() == 0 {
            Seq::empty()
        } else {
            json_text_list_of(raw@)->Some_0
        },
    }
}

/// The options of a stored field: none where nothing or an empty text is
/// stored, otherwise the stored JSON list.
pub fn stored_options(options_json: Option<String>) -> (r: Result<Vec<String>, AppError>)
    ensures
        match options_json {
            None => r matches Ok(v) && v@.len() == 0,
            Some(raw) => if raw@.len() == 0 {
                r matches Ok(v) && v@.len() == 0
            } else {
                match json_text_list_of(raw@) {
                    Some(l) => r matches Ok(v) && v@.map_values(|s: String| s@) == l,
                    None => r matches Err(e) && e is Internal,
                }
            },
        },
{
    match options_json {
        None => Ok(Vec::new()),
        Some(raw) => {
            if chars_of(raw.as_str()).len() == 0 {
                return Ok(Vec::new());
            }
            match json_text_list(raw.as_str()) {
                Ok(v) => Ok(v),
                Err(m) => Err(AppError::Internal(m)),
            }
        },
    }
}

/// A stored field read back: its options, fill mode, settings and type in turn,
/// the first refusal winning. Where it counts a sequence, the number it will
/// give next is not read here (`next` is `None`).
pub fn field_from_row(
    id: String,
    key: String,
    label: String,
    field_type: &str,
    required: i64,
    fill_mode: &str,
    options_json: Option<String>,
    config_json: &str,
) -> (r: Result<Field, AppError>)
    ensures
        r matches Ok(f) ==> {
            &&& f.id == id && f.key == key && f.label == label
            &&& f.required == (required != 0)
            &&& fill_mode_name(f.fill_mode) == fill_mode@
            &&& field_type_name(f.field_type) == field_type@
            &&& (f.date_format@, f.auto, f.seq_start) == config_spec(
                f.fill_mode,
                json_text_member_of(config_json@, "date_format"@),
                json_bool_member_of(config_json@, "auto"@),
                json_int_member_of(config_json@, "seq_start"@),
            )
            &&& f.next is None
            &&& f.options@.map_values(|s: String| s@) == stored_options_spec(options_json)
        },
        (options_json matches Some(raw) && raw@.len() > 0 && json_text_list_of(raw@) is None)
            ==> (r matches Err(e) && e is Internal),
        (match options_json {
            Some(raw) => raw@.len() == 0 || json_text_list_of(raw@) is Some,
            None => true,
        }) && (exists|m: FillMode| fill_mode_name(m) == fill_mode@) && (exists|t: FieldType|
            field_type_name(t) == field_type@) ==> r is Ok,
{
    let options = match stored_options(options_json) {
        Ok(o) => o,
        Err(e) => {
            return Err(e);
        },
    };
    let mode = match FillMode::parse(fill_mode) {
        Ok(m) => m,
        Err(e) => {
            return Err(e);
        },
    };
    let (date_format, auto, seq_start) = parse_config(Some(config_json), mode);
    let t = match FieldType::parse(field_type) {
        Ok(t) => t,
        Err(e) => {
            return Err(e);
        },
    };
    Ok(Field {
        id,
        key,
        label,
        field_type: t,
        required: required != 0,
        fill_mode: mode,
        options,
        auto,
        date_format,
        seq_start,
        next: None,
    })
}

/// A body filled with the values given for the fields, as HTML. `parsed` is the
/// trimmed body read as a JSON layout, where it reads as one.
pub fn render_body(layout: &str, parsed: &Option<Layout>, fields: &Vec<Field>, values: &Vec<(String, FieldValue)>) -> (out: String)
    ensures
        out@ == fill_fold(to_html_spec(layout@, *parsed), fields@, values@),
{
    let html = to_html(layout, parsed);
    fill_placeholders(html.as_str(), fields, values)
}

/// What is kept of an original uploaded for a template: a `.docx` with its
/// placeholders normalized where that works, any other file as it came.
pub fn source_to_store(ext: &str, bytes: &[u8]) -> (r: Vec<u8>)
    ensures
        ext@ != "docx"@ ==> r@ == bytes@,
        ext@ == "docx"@ && archive_files(bytes@) is Err ==> r@ == bytes@,
        ext@ == "docx"@ && archive_files(bytes@) is Ok ==> r@ == bytes@ || r@ == zip_bytes_of(
            archive_files(bytes@)->Ok_0.map_values(
                |e: EntryView| rewrite_entry(e, |t: Seq<char>| normalize_fold(t, marks_spec(t))),
            ),
        ),
        ext@ == "docx"@ && (archive_files(bytes@) matches Ok(fs) && writable(
            fs.map_values(
                |e: EntryView| rewrite_entry(e, |t: Seq<char>| normalize_fold(t, marks_spec(t))),
            ),
        )) ==> r@ == zip_bytes_of(
            archive_files(bytes@)->Ok_0.map_values(
                |e: EntryView| rewrite_entry(e, |t: Seq<char>| normalize_fold(t, marks_spec(t))),
            ),
        ),
{
    proof {
        reveal_strlit("docx");
    }
    if eq_chars(&chars_of(ext), &chars_of("docx")) {
        match normalize_docx(bytes) {
            Ok(b) => b,
            Err(_) => vstd::slice::slice_to_vec(bytes),
        }
    } else {
        vstd::slice::slice_to_vec(bytes)
    }
}

} // verus!
