//! Reading a file laid on the sheet: its text, and the fields its placeholders ask for.
use vstd::prelude::*;

use crate::marks::{
    collect_marks, field_type_for, guess_fill, guess_fill_spec, lemma_marks_valid, marks_ok,
    marks_spec, marks_view, placeholder,
};
use crate::archive::zip_text_result;
use crate::docx::{docx_text, document_text_spec};
use crate::error::{is_bad, is_internal, AppError};
use crate::files::{blocked_ext, check, extension_spec, MAX_SOURCE_BYTES};
use crate::model::{valid_key, FieldType, FillMode};
use crate::text::{
    ascii_lower_seq, chars_of, contains, eq_chars, find_from, lemma_find_from_bounds, lossy_utf8, matches_at,
    push_all, replace, replace_exec, string_of, utf8_lossy,
};

verus! {

/// A field found in a file.
#[derive(Debug, Clone)]
pub struct ExtractedField {
    pub key: String,
    pub label: String,
    pub field_type: FieldType,
    pub required: bool,
    pub fill_mode: FillMode,
}

/// What a file gives: its text (placeholders rewritten to their keys), the fields,
/// and the format it was read as.
#[derive(Debug, Clone)]
pub struct Extracted {
    pub text: String,
    pub fields: Vec<ExtractedField>,
    pub format: String,
}

/// A found field as `(key, label, fill mode)`; its type and whether it is
/// required follow from the fill mode.
pub type FieldSketch = (Seq<char>, Seq<char>, FillMode);

/// Goes through the marks in order: the first mark of each key gives a field, and
/// where its text differs from its key, `{{text}}` is rewritten to `{{key}}`
/// everywhere in the text. Returns the rewritten text and the fields.
pub open spec fn build_fold(
    text: Seq<char>,
    marks: Seq<(Seq<char>, Seq<char>, Seq<char>)>,
    seen: Seq<Seq<char>>,
) -> (Seq<char>, Seq<FieldSketch>)
    decreases marks.len(),
{
    if marks.len() == 0 {
        (text, Seq::empty())
    } else {
        let m = marks[0];
        if seen.contains(m.1) {
            build_fold(text, marks.drop_first(), seen)
        } else {
            let t2 = if m.0 != m.1 {
                replace(text, placeholder(m.0), placeholder(m.1))
            } else {
                text
            };
            let rest = build_fold(t2, marks.drop_first(), seen.push(m.1));
            (rest.0, seq![(m.1, m.2, guess_fill_spec(m.1))] + rest.1)
        }
    }
}

/// The text and fields that `raw` gives.
pub open spec fn extracted_spec(raw: Seq<char>) -> (Seq<char>, Seq<FieldSketch>) {
    build_fold(raw, marks_spec(raw), Seq::empty())
}

/// `f` is the field that `s` describes.
pub open spec fn field_matches(f: ExtractedField, s: FieldSketch) -> bool {
    &&& f.key@ == s.0
    &&& f.label@ == s.1
    &&& f.fill_mode == s.2
    &&& f.field_type == field_type_for(s.2)
    &&& f.required == (s.2 == FillMode::Manual)
}

/// The fields are those `sketches` describes, in order.
pub open spec fn fields_match(fields: Seq<ExtractedField>, sketches: Seq<FieldSketch>) -> bool {
    &&& fields.len() == sketches.len()
    &&& forall|k: int| 0 <= k < fields.len() ==> field_matches(#[trigger] fields[k], sketches[k])
}

/// Every key of the fields is a valid key, none is in `seen`, and no two are equal.
pub open spec fn keys_fresh(fields: Seq<FieldSketch>, seen: Seq<Seq<char>>) -> bool {
    &&& forall|k: int| 0 <= k < fields.len() ==> valid_key(#[trigger] fields[k].0)
    &&& forall|k: int| 0 <= k < fields.len() ==> !seen.contains(#[trigger] fields[k].0)
    &&& forall|a: int, b: int|
        0 <= a < b < fields.len() ==> #[trigger] fields[a].0 != #[trigger] fields[b].0
}

pub proof fn lemma_build_fold_keys(
    text: Seq<char>,
    marks: Seq<(Seq<char>, Seq<char>, Seq<char>)>,
    seen: Seq<Seq<char>>,
)
    requires
        marks_ok(marks),
    ensures
        keys_fresh(build_fold(text, marks, seen).1, seen),
    decreases marks.len(),
{
    if marks.len() > 0 {
        let m = marks[0];
        assert(marks_ok(marks.drop_first())) by {
            assert forall|k: int| 0 <= k < marks.drop_first().len() implies valid_key(
                #[trigger] marks.drop_first()[k].1,
            ) && marks.drop_first()[k].1 == crate::marks::slugify_spec(marks.drop_first()[k].0)
                && marks.drop_first()[k].0.len() > 0 by {
                assert(marks.drop_first()[k] == marks[k + 1]);
            }
        }
        if seen.contains(m.1) {
            lemma_build_fold_keys(text, marks.drop_first(), seen);
        } else {
            let t2 = if m.0 != m.1 {
                replace(text, placeholder(m.0), placeholder(m.1))
            } else {
                text
            };
            lemma_build_fold_keys(t2, marks.drop_first(), seen.push(m.1));
            let rest = build_fold(t2, marks.drop_first(), seen.push(m.1)).1;
            let all = build_fold(text, marks, seen).1;
            assert(all == seq![(m.1, m.2, guess_fill_spec(m.1))] + rest);
            assert(valid_key(marks[0].1));
            assert forall|k: int| 0 <= k < all.len() implies valid_key(#[trigger] all[k].0) by {
                if k > 0 {
                    assert(all[k] == rest[k - 1]);
                }
            }
            assert forall|k: int| 0 <= k < all.len() implies !seen.contains(#[trigger] all[k].0) by {
                if k > 0 {
                    assert(all[k] == rest[k - 1]);
                    assert(!seen.push(m.1).contains(rest[k - 1].0));
                    if seen.contains(rest[k - 1].0) {
                        let j = choose|j: int| 0 <= j < seen.len() && seen[j] == rest[k - 1].0;
                        assert(seen.push(m.1)[j] == rest[k - 1].0);
                    }
                }
            }
            assert forall|a: int, b: int| 0 <= a < b < all.len() implies #[trigger] all[a].0
                != #[trigger] all[b].0 by {
                assert(all[b] == rest[b - 1]);
                if a == 0 {
                    assert(!seen.push(m.1).contains(rest[b - 1].0));
                    assert(seen.push(m.1)[seen.len() as int] == m.1);
                } else {
                    assert(all[a] == rest[a - 1]);
                }
            }
        }
    }
}

/// The key of every field found in a text is a valid key, and no key is found
/// twice.
pub proof fn law_extracted_keys_valid_and_unique(raw: Seq<char>)
    ensures
        keys_fresh(extracted_spec(raw).1, Seq::empty()),
{
    lemma_marks_valid(raw, 0);
    lemma_build_fold_keys(raw, marks_spec(raw), Seq::empty());
}

/// Whether `key` is one of `seen`.
fn seen_contains(seen: &Vec<Vec<char>>, key: &Vec<char>) -> (b: bool)
    ensures
        b == seen@.map_values(|v: Vec<char>| v@).contains(key@),
{
    let ghost view = seen@.map_values(|v: Vec<char>| v@);
    let mut i: usize = 0;
    while i < seen.len()
        invariant
            i <= seen.len(),
            view == seen@.map_values(|v: Vec<char>| v@),
            forall|j: int| 0 <= j < i ==> view[j] != key@,
        decreases seen.len() - i,
    {
        if eq_chars(&seen[i], key) {
            assert(view[i as int] == key@);
            return true;
        }
        i = i + 1;
    }
    false
}

/// Builds the text and fields from the raw text of a file.
pub fn build_extracted(raw: &Vec<char>, format: &str) -> (e: Extracted)
    ensures
        e.text@ == extracted_spec(raw@).0,
        fields_match(e.fields@, extracted_spec(raw@).1),
        e.format@ == format@,
{
    let marks = collect_marks(raw);
    let ghost ms = marks_spec(raw@);
    let mut text: Vec<char> = Vec::new();
    push_all(&mut text, raw);
    assert(text@ =~= raw@);
    let mut fields: Vec<ExtractedField> = Vec::new();
    let mut seen: Vec<Vec<char>> = Vec::new();
    let ghost sk: Seq<FieldSketch> = Seq::empty();
    let mut j: usize = 0;
    assert(ms.skip(0) =~= ms);
    assert(seen@.map_values(|v: Vec<char>| v@) =~= Seq::<Seq<char>>::empty());
    while j < marks.len()
        invariant
            j <= marks.len(),
            marks_view(marks@) == ms,
            ms == marks_spec(raw@),
            extracted_spec(raw@).0 == build_fold(
                text@,
                ms.skip(j as int),
                seen@.map_values(|v: Vec<char>| v@),
            ).0,
            extracted_spec(raw@).1 == sk + build_fold(
                text@,
                ms.skip(j as int),
                seen@.map_values(|v: Vec<char>| v@),
            ).1,
            fields_match(fields@, sk),
        decreases marks.len() - j,
    {
        let ghost seen_v = seen@.map_values(|v: Vec<char>| v@);
        let ghost rest = ms.skip(j as int);
        assert(rest.drop_first() =~= ms.skip(j + 1));
        assert(rest[0] == ms[j as int]);
        assert(ms[j as int] == (marks@[j as int].0@, marks@[j as int].1@, marks@[j as int].2@));
        let original = &marks[j].0;
        let key = &marks[j].1;
        let label = &marks[j].2;
        if seen_contains(&seen, key) {
            j = j + 1;
            continue;
        }
        let mut kc: Vec<char> = Vec::new();
        push_all(&mut kc, key);
        seen.push(kc);
        assert(seen@.map_values(|v: Vec<char>| v@) =~= seen_v.push(key@));
        if !eq_chars(original, key) {
            let mut from: Vec<char> = vec!['{', '{'];
            push_all(&mut from, original);
            from.push('}');
            from.push('}');
            let mut to: Vec<char> = vec!['{', '{'];
            push_all(&mut to, key);
            to.push('}');
            to.push('}');
            assert(from@ =~= placeholder(original@));
            assert(to@ =~= placeholder(key@));
            text = replace_exec(&text, &from, &to);
        }
        let fill_mode = guess_fill(key);
        let field_type = match fill_mode {
            FillMode::CreatedAt => FieldType::Date,
            FillMode::Sequence => FieldType::Number,
            FillMode::Manual => FieldType::Text,
        };
        let ghost before = fields@;
        fields.push(
            ExtractedField {
                key: string_of(key),
                label: string_of(label),
                field_type,
                required: fill_mode == FillMode::Manual,
                fill_mode,
            },
        );
        proof {
            let s_new: FieldSketch = (key@, label@, guess_fill_spec(key@));
            assert(fields@ == before.push(fields@[fields@.len() - 1]));
            assert forall|k: int| 0 <= k < fields@.len() implies field_matches(
                #[trigger] fields@[k],
                sk.push(s_new)[k],
            ) by {
                if k < before.len() {
                    assert(fields@[k] == before[k]);
                }
            }
            assert(sk + seq![s_new] + build_fold(
                text@,
                ms.skip(j + 1),
                seen@.map_values(|v: Vec<char>| v@),
            ).1 =~= sk.push(s_new) + build_fold(
                text@,
                ms.skip(j + 1),
                seen@.map_values(|v: Vec<char>| v@),
            ).1);
            sk = sk.push(s_new);
        }
        j = j + 1;
    }
    assert(ms.skip(j as int) =~= Seq::empty());
    assert(sk + Seq::<FieldSketch>::empty() =~= sk);
    Extracted { text: string_of(&text), fields, format: format.to_owned() }
}

proof fn lemma_format_names()
    ensures
        "txt"@.len() == 3,
        "md"@.len() == 2,
        "docx"@.len() == 4,
        "doc"@.len() == 3,
        "pdf"@.len() == 3,
        "txt"@ != "doc"@,
        "txt"@ != "pdf"@,
        "doc"@ != "pdf"@,
{
    reveal_strlit("txt");
    reveal_strlit("md");
    reveal_strlit("docx");
    reveal_strlit("doc");
    reveal_strlit("pdf");
    assert("txt"@[0] != "doc"@[0]);
    assert("txt"@[0] != "pdf"@[0]);
    assert("doc"@[0] != "pdf"@[0]);
}

/// `e` is what the raw text `raw` gives, read as `format`.
pub open spec fn extracted_is(e: Extracted, raw: Seq<char>, format: Seq<char>) -> bool {
    &&& e.text@ == extracted_spec(raw).0
    &&& fields_match(e.fields@, extracted_spec(raw).1)
    &&& e.format@ == format
}

/// Reads an uploaded file: plain text (`.txt`, `.md`, or no extension) as
/// UTF-8, a `.docx` by the text of its main part. Old `.doc`, PDF and other
/// formats are refused with a message saying what to do instead.
pub fn from_bytes(filename: &str, bytes: &[u8]) -> (r: Result<Extracted, AppError>)
    ensures
        bytes@.len() > MAX_SOURCE_BYTES ==> r is Err && is_bad(r->Err_0, "файл больше 20 МБ"@),
        bytes@.len() <= MAX_SOURCE_BYTES && blocked_ext(extension_spec(filename@)) ==> r is Err
            && is_bad(r->Err_0, "этот тип файла нельзя импортировать"@),
        ({
            let ext = extension_spec(filename@);
            let xml = zip_text_result(bytes@, "word/document.xml"@);
            bytes@.len() <= MAX_SOURCE_BYTES && !blocked_ext(ext) ==> {
                &&& (ext == "txt"@ || ext == "md"@ || ext.len() == 0) ==> (r matches Ok(e)
                    && extracted_is(e, lossy_utf8(bytes@), "txt"@))
                &&& ext == "docx"@ && xml is Err ==> r is Err && is_internal(r->Err_0, xml->Err_0)
                &&& ext == "docx"@ && xml == Ok::<Option<Seq<char>>, Seq<char>>(None) ==> r is Err
                    && is_bad(r->Err_0, "в файле нет word/document.xml — это не обычный .docx"@)
                &&& ext == "docx"@ && xml is Ok && xml->Ok_0 is Some ==> (r matches Ok(e)
                    && extracted_is(e, document_text_spec(xml->Ok_0->Some_0), "docx"@))
                &&& ext == "doc"@ ==> r is Err && is_bad(
                    r->Err_0,
                    "старый .doc не читаем. Сохраните в Word как .docx или поставьте {{переменные}} в новом файле"@,
                )
                &&& ext == "pdf"@ ==> r is Err && is_bad(
                    r->Err_0,
                    "PDF пока не разбираем. Сохраните как .docx с {{переменными}} или вставьте текст на лист"@,
                )
                &&& !(ext == "txt"@ || ext == "md"@ || ext.len() == 0 || ext == "docx"@ || ext
                    == "doc"@ || ext == "pdf"@) ==> r is Err && is_bad(
                    r->Err_0,
                    "формат ."@ + ext + " на лист не кладётся. Нужен .docx или .txt"@,
                )
            }
        }),
{
    proof {
        lemma_format_names();
    }
    let ext_s = check(filename, bytes)?;
    let ext = chars_of(ext_s.as_str());
    if eq_chars(&ext, &chars_of("txt")) || eq_chars(&ext, &chars_of("md")) || ext.len() == 0 {
        let raw = utf8_lossy(bytes);
        return Ok(build_extracted(&chars_of(raw.as_str()), "txt"));
    }
    if eq_chars(&ext, &chars_of("docx")) {
        let raw = docx_text(bytes)?;
        return Ok(build_extracted(&chars_of(raw.as_str()), "docx"));
    }
    if eq_chars(&ext, &chars_of("doc")) {
        return Err(
            AppError::bad(
                "старый .doc не читаем. Сохраните в Word как .docx или поставьте {{переменные}} в новом файле",
            ),
        );
    }
    if eq_chars(&ext, &chars_of("pdf")) {
        return Err(
            AppError::bad(
                "PDF пока не разбираем. Сохраните как .docx с {{переменными}} или вставьте текст на лист",
            ),
        );
    }
    Err(AppError::bad_around("формат .", &ext, " на лист не кладётся. Нужен .docx или .txt"))
}

/// Lower-casing keeps an occurrence of a lower-case pattern.
proof fn lemma_lower_keeps(s: Seq<char>, p: Seq<char>)
    requires
        contains(s, p),
        ascii_lower_seq(p) == p,
    ensures
        contains(ascii_lower_seq(s), p),
{
    lemma_find_from_bounds(s, p, 0);
    let i = find_from(s, p, 0)->Some_0;
    let l = ascii_lower_seq(s);
    assert forall|j: int| 0 <= j < p.len() implies l.subrange(i, i + p.len())[j] == p[j] by {
        assert(l[i + j] == crate::text::ascii_lower(s[i + j]));
        assert(s[i + j] == s.subrange(i, i + p.len())[j]);
        assert(ascii_lower_seq(p)[j] == crate::text::ascii_lower(p[j]));
    }
    assert(l.subrange(i, i + p.len()) =~= p);
    assert(matches_at(l, i, p));
    lemma_find_from_bounds(l, p, 0);
}

/// Law: a key that speaks of a date (`date`, or `data`, the transliteration of
/// «дата») is filled with the creation date.
pub proof fn law_date_keys_take_the_creation_date(key: Seq<char>)
    ensures
        contains(key, "date"@) || contains(key, "data"@) ==> guess_fill_spec(key) == FillMode::CreatedAt,
{
    reveal_strlit("date");
    reveal_strlit("data");
    assert(ascii_lower_seq("date"@) =~= "date"@);
    assert(ascii_lower_seq("data"@) =~= "data"@);
    if contains(key, "date"@) {
        lemma_lower_keeps(key, "date"@);
    }
    if contains(key, "data"@) {
        lemma_lower_keeps(key, "data"@);
    }
}

/// Every field found gets the fill mode its key suggests.
proof fn lemma_build_fold_modes(
    text: Seq<char>,
    marks: Seq<(Seq<char>, Seq<char>, Seq<char>)>,
    seen: Seq<Seq<char>>,
)
    ensures
        forall|k: int|
            0 <= k < build_fold(text, marks, seen).1.len() ==> (#[trigger] build_fold(text, marks, seen).1[k]).2
                == guess_fill_spec(build_fold(text, marks, seen).1[k].0),
    decreases marks.len(),
{
    if marks.len() > 0 {
        let m = marks[0];
        if seen.contains(m.1) {
            lemma_build_fold_modes(text, marks.drop_first(), seen);
        } else {
            let t2 = if m.0 != m.1 {
                replace(text, placeholder(m.0), placeholder(m.1))
            } else {
                text
            };
            lemma_build_fold_modes(t2, marks.drop_first(), seen.push(m.1));
            let rest = build_fold(t2, marks.drop_first(), seen.push(m.1)).1;
            let all = build_fold(text, marks, seen).1;
            assert(all == seq![(m.1, m.2, guess_fill_spec(m.1))] + rest);
            assert forall|k: int| 0 <= k < all.len() implies (#[trigger] all[k]).2 == guess_fill_spec(all[k].0) by {
                if k > 0 {
                    assert(all[k] == rest[k - 1]);
                }
            }
        }
    }
}

/// Law: every field found in a text whose key speaks of a date (`date`, or
/// `data` for «дата») is filled with the creation date: it is a date, and not
/// required of whoever fills the document.
pub proof fn law_date_fields_take_the_creation_date(raw: Seq<char>, fields: Seq<ExtractedField>)
    requires
        fields_match(fields, extracted_spec(raw).1),
    ensures
        forall|k: int|
            0 <= k < fields.len() && (contains(#[trigger] fields[k].key@, "date"@) || contains(
                fields[k].key@,
                "data"@,
            )) ==> fields[k].fill_mode == FillMode::CreatedAt && fields[k].field_type == FieldType::Date
                && !fields[k].required,
{
    lemma_build_fold_modes(raw, marks_spec(raw), Seq::empty());
    let sk = extracted_spec(raw).1;
    assert forall|k: int|
        0 <= k < fields.len() && (contains(#[trigger] fields[k].key@, "date"@) || contains(
            fields[k].key@,
            "data"@,
        )) implies fields[k].fill_mode == FillMode::CreatedAt && fields[k].field_type == FieldType::Date
        && !fields[k].required by {
        assert(field_matches(fields[k], sk[k]));
        assert(sk[k].2 == guess_fill_spec(sk[k].0));
        law_date_keys_take_the_creation_date(sk[k].0);
    }
}

/// A lower-cased key holds no `d` where the key holds neither `d` nor `D`.
proof fn lemma_no_d(key: Seq<char>, p: Seq<char>)
    requires
        forall|i: int| 0 <= i < key.len() ==> key[i] != 'd' && key[i] != 'D',
        p.len() > 0,
        p[0] == 'd',
    ensures
        !contains(ascii_lower_seq(key), p),
{
    let l = ascii_lower_seq(key);
    lemma_find_from_bounds(l, p, 0);
    if contains(l, p) {
        let i = find_from(l, p, 0)->Some_0;
        assert(l.subrange(i, i + p.len())[0] == l[i]);
        assert(l[i] == crate::text::ascii_lower(key[i]));
    }
}

/// Law: a key that names a number (`number`, or `nomer` for «номер») and
/// speaks of no date (no `d` in it, no `_at` at its end) counts a sequence.
pub proof fn law_number_keys_count_a_sequence(key: Seq<char>)
    ensures
        (contains(key, "number"@) || contains(key, "nomer"@)) && (forall|i: int|
            0 <= i < key.len() ==> key[i] != 'd' && key[i] != 'D') && !crate::text::ends_with(
            ascii_lower_seq(key),
            "_at"@,
        ) ==> guess_fill_spec(key) == FillMode::Sequence,
{
    reveal_strlit("number");
    reveal_strlit("nomer");
    reveal_strlit("date");
    reveal_strlit("data");
    reveal_strlit("dt");
    reveal_strlit("when");
    if (contains(key, "number"@) || contains(key, "nomer"@)) && (forall|i: int|
        0 <= i < key.len() ==> key[i] != 'd' && key[i] != 'D') {
        let l = ascii_lower_seq(key);
        assert(ascii_lower_seq("number"@) =~= "number"@);
        assert(ascii_lower_seq("nomer"@) =~= "nomer"@);
        if contains(key, "number"@) {
            lemma_lower_keeps(key, "number"@);
        } else {
            lemma_lower_keeps(key, "nomer"@);
        }
        lemma_find_from_bounds(l, "number"@, 0);
        lemma_find_from_bounds(l, "nomer"@, 0);
        assert(l.len() >= 5);
        assert(l != "when"@);
        lemma_no_d(key, "date"@);
        lemma_no_d(key, "data"@);
        lemma_no_d(key, "dt"@);
    }
}

} // verus!
