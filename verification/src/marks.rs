//! Placeholders `{{...}}` in template text: finding them, turning what is written
//! inside into a field key, and guessing how the field gets filled.
use vstd::prelude::*;

use crate::model::{valid_key, valid_key_chars, FieldType, FillMode};
use crate::text::{
    ascii_lower_seq, chars_of, contains, contains_exec, ends_with, find_from, find_from_exec,
    is_alphabetic, is_ascii_alnum, is_ascii_digit, lemma_find_from_bounds, lower_chars,
    lowercase_first, matches_at_exec, push_all, push_range, push_str, replace, replace_exec,
    trim, trim_chars, unicode_alphabetic, unicode_lowercase_first,
};

verus! {

// ---------------------------------------------------------------------------
// Transliteration and keys
// ---------------------------------------------------------------------------
/// The latin spelling of a lower-case Russian letter.
pub open spec fn translit_spec(c: char) -> Option<Seq<char>> {
    match c {
        'а' => Some("a"@),
        'б' => Some("b"@),
        'в' => Some("v"@),
        'г' => Some("g"@),
        'д' => Some("d"@),
        'е' => Some("e"@),
        'ё' => Some("e"@),
        'ж' => Some("zh"@),
        'з' => Some("z"@),
        'и' => Some("i"@),
        'й' => Some("j"@),
        'к' => Some("k"@),
        'л' => Some("l"@),
        'м' => Some("m"@),
        'н' => Some("n"@),
        'о' => Some("o"@),
        'п' => Some("p"@),
        'р' => Some("r"@),
        'с' => Some("s"@),
        'т' => Some("t"@),
        'у' => Some("u"@),
        'ф' => Some("f"@),
        'х' => Some("h"@),
        'ц' => Some("c"@),
        'ч' => Some("ch"@),
        'ш' => Some("sh"@),
        'щ' => Some("sch"@),
        'ъ' => Some(""@),
        'ь' => Some(""@),
        'ы' => Some("y"@),
        'э' => Some("e"@),
        'ю' => Some("yu"@),
        'я' => Some("ya"@),
        _ => None,
    }
}

/// The latin spelling of a lower-case Russian letter.
pub fn translit(c: char) -> (r: Option<&'static str>)
    ensures
        r matches Some(s) ==> translit_spec(c) == Some(s@),
        r is None ==> translit_spec(c) is None,
{
    match c {
        'а' => Some("a"),
        'б' => Some("b"),
        'в' => Some("v"),
        'г' => Some("g"),
        'д' => Some("d"),
        'е' => Some("e"),
        'ё' => Some("e"),
        'ж' => Some("zh"),
        'з' => Some("z"),
        'и' => Some("i"),
        'й' => Some("j"),
        'к' => Some("k"),
        'л' => Some("l"),
        'м' => Some("m"),
        'н' => Some("n"),
        'о' => Some("o"),
        'п' => Some("p"),
        'р' => Some("r"),
        'с' => Some("s"),
        'т' => Some("t"),
        'у' => Some("u"),
        'ф' => Some("f"),
        'х' => Some("h"),
        'ц' => Some("c"),
        'ч' => Some("ch"),
        'ш' => Some("sh"),
        'щ' => Some("sch"),
        'ъ' => Some(""),
        'ь' => Some(""),
        'ы' => Some("y"),
        'э' => Some("e"),
        'ю' => Some("yu"),
        'я' => Some("ya"),
        _ => None,
    }
}

/// What one character of a placeholder becomes in its key.
pub open spec fn slug_piece(c: char) -> Seq<char> {
    let l = unicode_lowercase_first(c);
    match translit_spec(l) {
        Some(r) => r,
        None => if is_ascii_alnum(l) {
            seq![l]
        } else {
            seq!['_']
        },
    }
}

/// Every character of `s` turned into its piece.
pub open spec fn slug_raw(s: Seq<char>) -> Seq<char>
    decreases s.len(),
{
    if s.len() == 0 {
        Seq::empty()
    } else {
        slug_piece(s[0]) + slug_raw(s.drop_first())
    }
}

/// Every run of `_` shrunk to one `_`.
pub open spec fn squeeze(s: Seq<char>) -> Seq<char>
    decreases s.len(),
{
    if s.len() == 0 {
        s
    } else if s.len() >= 2 && s[0] == '_' && s[1] == '_' {
        squeeze(s.drop_first())
    } else {
        seq![s[0]] + squeeze(s.drop_first())
    }
}

/// `s` without leading `_`.
pub open spec fn strip_us_start(s: Seq<char>) -> Seq<char>
    decreases s.len(),
{
    if s.len() > 0 && s[0] == '_' {
        strip_us_start(s.drop_first())
    } else {
        s
    }
}

/// `s` without trailing `_`.
pub open spec fn strip_us_end(s: Seq<char>) -> Seq<char>
    decreases s.len(),
{
    if s.len() > 0 && s.last() == '_' {
        strip_us_end(s.drop_last())
    } else {
        s
    }
}

/// The key a placeholder's text gives: letters lower-cased and Russian ones
/// spelt in latin, everything else but latin letters and digits turned into `_`,
/// runs of `_` shrunk and `_` stripped from both ends; `f_` put before a key that
/// would start with a digit, and others cut to 64 characters.
pub open spec fn slugify_spec(s: Seq<char>) -> Seq<char> {
    let out = strip_us_end(strip_us_start(squeeze(slug_raw(s))));
    if out.len() == 0 {
        Seq::empty()
    } else if is_ascii_digit(out[0]) {
        seq!['f', '_'] + out
    } else if out.len() <= 64 {
        out
    } else {
        out.take(64)
    }
}

pub fn slugify(s: &Vec<char>) -> (out: Vec<char>)
    ensures
        out@ == slugify_spec(s@),
{
    // the pieces
    let mut raw: Vec<char> = Vec::new();
    let mut i: usize = 0;
    assert(s@.skip(0) =~= s@);
    while i < s.len()
        invariant
            i <= s.len(),
            raw@ + slug_raw(s@.skip(i as int)) == slug_raw(s@),
        decreases s.len() - i,
    {
        assert(s@.skip(i as int).drop_first() =~= s@.skip(i + 1));
        let ghost before = raw@;
        let lower = lowercase_first(s[i]);
        match translit(lower) {
            Some(rep) => push_str(&mut raw, rep),
            None => {
                if ('a' <= lower && lower <= 'z') || ('A' <= lower && lower <= 'Z') || ('0' <= lower
                    && lower <= '9') {
                    raw.push(lower);
                } else {
                    raw.push('_');
                }
            },
        }
        assert(raw@ == before + slug_piece(s@[i as int]));
        assert(before + slug_raw(s@.skip(i as int)) =~= raw@ + slug_raw(s@.skip(i + 1)));
        i = i + 1;
    }
    assert(slug_raw(s@.skip(i as int)) =~= Seq::<char>::empty());
    assert(raw@ =~= slug_raw(s@));
    // runs of `_`
    let mut sq: Vec<char> = Vec::new();
    let mut j: usize = 0;
    assert(raw@.skip(0) =~= raw@);
    while j < raw.len()
        invariant
            j <= raw.len(),
            sq@ + squeeze(raw@.skip(j as int)) == squeeze(raw@),
        decreases raw.len() - j,
    {
        let ghost rest = raw@.skip(j as int);
        assert(rest.drop_first() =~= raw@.skip(j + 1));
        if raw[j] == '_' && j + 1 < raw.len() && raw[j + 1] == '_' {
        } else {
            let ghost before = sq@;
            sq.push(raw[j]);
            assert(before + squeeze(rest) =~= sq@ + squeeze(raw@.skip(j + 1)));
        }
        j = j + 1;
    }
    assert(squeeze(raw@.skip(j as int)) =~= Seq::<char>::empty());
    assert(sq@ =~= squeeze(raw@));
    // `_` at both ends
    let mut a: usize = 0;
    assert(sq@.skip(0) =~= sq@);
    while a < sq.len() && sq[a] == '_'
        invariant
            a <= sq.len(),
            strip_us_start(sq@) == strip_us_start(sq@.skip(a as int)),
        decreases sq.len() - a,
    {
        assert(sq@.skip(a as int).drop_first() =~= sq@.skip(a + 1));
        a = a + 1;
    }
    let ghost t = sq@.skip(a as int);
    assert(strip_us_start(t) == t);
    let mut b: usize = sq.len();
    assert(t =~= sq@.subrange(a as int, b as int));
    while b > a && sq[b - 1] == '_'
        invariant
            a <= b <= sq.len(),
            strip_us_end(t) == strip_us_end(sq@.subrange(a as int, b as int)),
        decreases b,
    {
        assert(sq@.subrange(a as int, b as int).drop_last() =~= sq@.subrange(a as int, b - 1));
        b = b - 1;
    }
    let ghost out = sq@.subrange(a as int, b as int);
    assert(strip_us_end(out) == out);
    if a == b {
        return Vec::new();
    }
    if '0' <= sq[a] && sq[a] <= '9' {
        let mut r: Vec<char> = vec!['f', '_'];
        push_range(&mut r, &sq, a, b);
        return r;
    }
    let end = if b - a <= 64 {
        b
    } else {
        a + 64
    };
    let mut r: Vec<char> = Vec::new();
    push_range(&mut r, &sq, a, end);
    assert(b - a > 64 ==> r@ =~= out.take(64));
    r
}

// ---------------------------------------------------------------------------
// Finding placeholders
// ---------------------------------------------------------------------------
/// `}}`
pub open spec fn close_pat() -> Seq<char> {
    seq!['}', '}']
}

/// `{{key}}`
pub open spec fn placeholder(k: Seq<char>) -> Seq<char> {
    seq!['{', '{'] + k + seq!['}', '}']
}

/// `c` is not ASCII and is a letter.
pub open spec fn non_ascii_letter(c: char) -> bool {
    unicode_alphabetic(c) && (c as u32) >= 0x80
}

/// The label a placeholder gives its field: the text itself where it holds a
/// non-ASCII letter, else the text with `_` written as spaces.
pub open spec fn mark_label(original: Seq<char>) -> Seq<char> {
    if exists|k: int| 0 <= k < original.len() && non_ascii_letter(#[trigger] original[k]) {
        original
    } else {
        replace(original, seq!['_'], seq![' '])
    }
}

/// The placeholders of `s` from index `i` on: `(text inside, key, label)` for each
/// `{{...}}` whose trimmed inside is not empty and gives a valid key. After a
/// placeholder the scan goes on behind its `}}`; a `{{` with no `}}` after it is
/// skipped.
pub open spec fn marks_from(s: Seq<char>, i: int) -> Seq<(Seq<char>, Seq<char>, Seq<char>)>
    decreases s.len() - i,
{
    if i < 0 || i + 1 >= s.len() {
        Seq::empty()
    } else if s[i] == '{' && s[i + 1] == '{' && find_from(s, close_pat(), i + 2) is Some && i + 2
        <= find_from(s, close_pat(), i + 2).unwrap() && find_from(s, close_pat(), i + 2).unwrap()
        + 2 <= s.len() {
        let e = find_from(s, close_pat(), i + 2).unwrap();
        let original = trim(s.subrange(i + 2, e));
        let key = slugify_spec(original);
        if original.len() == 0 || !valid_key(key) {
            marks_from(s, e + 2)
        } else {
            seq![(original, key, mark_label(original))] + marks_from(s, e + 2)
        }
    } else {
        marks_from(s, i + 1)
    }
}

/// The placeholders of `s`, in order.
pub open spec fn marks_spec(s: Seq<char>) -> Seq<(Seq<char>, Seq<char>, Seq<char>)> {
    marks_from(s, 0)
}

/// Every mark has a non-empty inside and a valid key made from it.
pub open spec fn marks_ok(ms: Seq<(Seq<char>, Seq<char>, Seq<char>)>) -> bool {
    forall|k: int|
        0 <= k < ms.len() ==> valid_key(#[trigger] ms[k].1) && ms[k].1 == slugify_spec(ms[k].0)
            && ms[k].0.len() > 0
}

pub proof fn lemma_marks_valid(s: Seq<char>, i: int)
    ensures
        marks_ok(marks_from(s, i)),
    decreases s.len() - i,
{
    if i < 0 || i + 1 >= s.len() {
    } else if s[i] == '{' && s[i + 1] == '{' && find_from(s, close_pat(), i + 2) is Some && i + 2
        <= find_from(s, close_pat(), i + 2).unwrap() && find_from(s, close_pat(), i + 2).unwrap()
        + 2 <= s.len() {
        let e = find_from(s, close_pat(), i + 2).unwrap();
        lemma_marks_valid(s, e + 2);
        let original = trim(s.subrange(i + 2, e));
        let key = slugify_spec(original);
        if original.len() == 0 || !valid_key(key) {
        } else {
            let rest = marks_from(s, e + 2);
            let all = marks_from(s, i);
            assert(all == seq![(original, key, mark_label(original))] + rest);
            assert forall|k: int| 0 <= k < all.len() implies valid_key(#[trigger] all[k].1)
                && all[k].1 == slugify_spec(all[k].0) && all[k].0.len() > 0 by {
                if k > 0 {
                    assert(all[k] == rest[k - 1]);
                }
            }
        }
    } else {
        lemma_marks_valid(s, i + 1);
    }
}

/// The view of a list of marks.
pub open spec fn marks_view(v: Seq<(Vec<char>, Vec<char>, Vec<char>)>) -> Seq<
    (Seq<char>, Seq<char>, Seq<char>),
> {
    v.map_values(|m: (Vec<char>, Vec<char>, Vec<char>)| (m.0@, m.1@, m.2@))
}

/// `mark_label` computed.
fn label_of(original: &Vec<char>) -> (r: Vec<char>)
    ensures
        r@ == mark_label(original@),
{
    let mut k: usize = 0;
    while k < original.len()
        invariant
            k <= original.len(),
            forall|j: int| 0 <= j < k ==> !non_ascii_letter(#[trigger] original@[j]),
        decreases original.len() - k,
    {
        let c = original[k];
        if is_alphabetic(c) && (c as u32) >= 0x80 {
            assert(non_ascii_letter(original@[k as int]));
            let mut copy: Vec<char> = Vec::new();
            push_all(&mut copy, original);
            assert(copy@ =~= original@);
            return copy;
        }
        k = k + 1;
    }
    assert(!(exists|j: int| 0 <= j < original@.len() && non_ascii_letter(#[trigger] original@[j])));
    let us: Vec<char> = vec!['_'];
    let sp: Vec<char> = vec![' '];
    assert(us@ =~= seq!['_']);
    assert(sp@ =~= seq![' ']);
    replace_exec(original, &us, &sp)
}

/// The placeholders of `text`, as `(text inside, key, label)`.
pub fn collect_marks(text: &Vec<char>) -> (out: Vec<(Vec<char>, Vec<char>, Vec<char>)>)
    ensures
        marks_view(out@) == marks_spec(text@),
{
    let close: Vec<char> = vec!['}', '}'];
    let mut out: Vec<(Vec<char>, Vec<char>, Vec<char>)> = Vec::new();
    let mut i: usize = 0;
    while text.len() > 1 && i < text.len() - 1
        invariant
            close@ == close_pat(),
            i <= text.len(),
            marks_view(out@) + marks_from(text@, i as int) == marks_spec(text@),
        decreases text.len() - i,
    {
        if text[i] == '{' && text[i + 1] == '{' {
            let found = find_from_exec(text, &close, i + 2);
            proof {
                lemma_find_from_bounds(text@, close@, i + 2);
            }
            if let Some(e) = found {
                let mut inner: Vec<char> = Vec::new();
                push_range(&mut inner, text, i + 2, e);
                let original = trim_chars(&inner);
                let ghost before = out@;
                i = e + 2;
                if original.len() == 0 {
                    continue;
                }
                let key = slugify(&original);
                if !valid_key_chars(&key) {
                    continue;
                }
                let label = label_of(&original);
                out.push((original, key, label));
                assert(marks_view(out@) =~= marks_view(before).push(
                    (original@, key@, label@),
                ));
                continue;
            }
        }
        i = i + 1;
    }
    assert(marks_from(text@, i as int) =~= Seq::empty());
    assert(marks_view(out@) + Seq::empty() =~= marks_view(out@));
    out
}

// ---------------------------------------------------------------------------
// Fill modes
// ---------------------------------------------------------------------------
/// How a field is filled, guessed from its key: keys about dates get the
/// creation date, keys about numbers the next sequence number, others are typed.
pub open spec fn guess_fill_spec(key: Seq<char>) -> FillMode {
    let k = ascii_lower_seq(key);
    if contains(k, "date"@) || contains(k, "data"@) || k == "when"@ || ends_with(k, "_at"@)
        || contains(k, "dt"@) {
        FillMode::CreatedAt
    } else if k == "num"@ || k == "nomer"@ || k == "nn"@ || ends_with(k, "_no"@) || contains(
        k,
        "number"@,
    ) || contains(k, "nomer"@) {
        FillMode::Sequence
    } else {
        FillMode::Manual
    }
}

/// `s` ends with `p`.
fn ends_with_exec(s: &Vec<char>, p: &Vec<char>) -> (b: bool)
    ensures
        b == ends_with(s@, p@),
{
    if p.len() > s.len() {
        return false;
    }
    matches_at_exec(s, s.len() - p.len(), p)
}

pub fn guess_fill(key: &Vec<char>) -> (m: FillMode)
    ensures
        m == guess_fill_spec(key@),
{
    let k = lower_chars(key);
    if contains_exec(&k, &chars_of("date")) || contains_exec(&k, &chars_of("data"))
        || crate::text::eq_chars(&k, &chars_of("when")) || ends_with_exec(&k, &chars_of("_at"))
        || contains_exec(&k, &chars_of("dt")) {
        FillMode::CreatedAt
    } else if crate::text::eq_chars(&k, &chars_of("num")) || crate::text::eq_chars(
        &k,
        &chars_of("nomer"),
    ) || crate::text::eq_chars(&k, &chars_of("nn")) || ends_with_exec(&k, &chars_of("_no"))
        || contains_exec(&k, &chars_of("number")) || contains_exec(&k, &chars_of("nomer")) {
        FillMode::Sequence
    } else {
        FillMode::Manual
    }
}

/// The field type a fill mode asks for.
pub open spec fn field_type_for(m: FillMode) -> FieldType {
    match m {
        FillMode::CreatedAt => FieldType::Date,
        FillMode::Sequence => FieldType::Number,
        FillMode::Manual => FieldType::Text,
    }
}

} // verus!
