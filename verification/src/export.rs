//! A filled template as a `.docx`: the layout's blocks as Word paragraphs and
//! tables, the bits of HTML in them as runs with bold, italic, underline and size.
use vstd::prelude::*;

use crate::archive::zip_bytes_of;
use crate::archive::zip_text_result;
use crate::docx::{archive_files, docx_package, package_entries, package_fits};
use crate::error::AppError;
use crate::layout::{
    block_cells, block_cells_spec, fill_fold, fill_placeholders, or_default, to_html, to_html_spec,
    Block, Layout,
};
use crate::model::{Field, FieldValue};
use crate::paragraphs::{xml_escape, xml_escape_spec};
use crate::text::{
    ascii_lower_seq, chars_of, contains, contains_exec, dec, dec_chars, dec_i64,
    dec_int, eq_chars, find, find_from, find_from_exec, is_ascii_digit, is_ws,
    lemma_find_from_bounds, lower_chars, parse_u32, parse_u32_spec, push_all, push_range, push_str,
    replace, replace_exec, starts_with, string_of, trim, trim_chars, ws,
};

verus! {

// ---------------------------------------------------------------------------
// Runs
// ---------------------------------------------------------------------------
/// The formatting of a run.
pub struct RunStyle {
    pub bold: bool,
    pub italic: bool,
    pub underline: bool,
    pub size: u32,
    pub font: Seq<char>,
}

/// Twice a point size, in half-points, as a `u32` product wraps.
pub open spec fn half_points_of(size: u32) -> nat {
    ((size as nat) * 2) % 0x1_0000_0000
}

/// A run of `text` with formatting `st`.
pub open spec fn run_xml_spec(text: Seq<char>, st: RunStyle) -> Seq<char> {
    let f = xml_escape_spec(st.font);
    let sz = dec(half_points_of(st.size));
    "<w:r><w:rPr>"@ + (if st.bold {
        "<w:b/><w:bCs/>"@
    } else {
        Seq::empty()
    }) + (if st.italic {
        "<w:i/><w:iCs/>"@
    } else {
        Seq::empty()
    }) + (if st.underline {
        "<w:u w:val=\"single\"/>"@
    } else {
        Seq::empty()
    }) + "<w:sz w:val=\""@ + sz + "\"/><w:szCs w:val=\""@ + sz + "\"/><w:rFonts w:ascii=\""@ + f
        + "\" w:hAnsi=\""@ + f + "\" w:cs=\""@ + f
        + "\"/></w:rPr><w:t xml:space=\"preserve\">"@ + xml_escape_spec(text) + "</w:t></w:r>"@
}

struct Style {
    bold: bool,
    italic: bool,
    underline: bool,
    size: u32,
    font: Vec<char>,
}

impl View for Style {
    type V = RunStyle;

    closed spec fn view(&self) -> RunStyle {
        RunStyle {
            bold: self.bold,
            italic: self.italic,
            underline: self.underline,
            size: self.size,
            font: self.font@,
        }
    }
}

fn copy_style(st: &Style) -> (r: Style)
    ensures
        r@ == st@,
{
    let mut font: Vec<char> = Vec::new();
    push_all(&mut font, &st.font);
    assert(font@ =~= st.font@);
    Style { bold: st.bold, italic: st.italic, underline: st.underline, size: st.size, font }
}

fn run_xml(text: &Vec<char>, st: &Style) -> (out: Vec<char>)
    ensures
        out@ == run_xml_spec(text@, st@),
{
    let f = xml_escape(&st.font);
    let sz2: u64 = (st.size as u64 * 2) % 4294967296;
    let sz = dec_chars(sz2);
    let mut out: Vec<char> = chars_of("<w:r><w:rPr>");
    if st.bold {
        push_str(&mut out, "<w:b/><w:bCs/>");
    }
    if st.italic {
        push_str(&mut out, "<w:i/><w:iCs/>");
    }
    if st.underline {
        push_str(&mut out, "<w:u w:val=\"single\"/>");
    }
    push_str(&mut out, "<w:sz w:val=\"");
    push_all(&mut out, &sz);
    push_str(&mut out, "\"/><w:szCs w:val=\"");
    push_all(&mut out, &sz);
    push_str(&mut out, "\"/><w:rFonts w:ascii=\"");
    push_all(&mut out, &f);
    push_str(&mut out, "\" w:hAnsi=\"");
    push_all(&mut out, &f);
    push_str(&mut out, "\" w:cs=\"");
    push_all(&mut out, &f);
    push_str(&mut out, "\"/></w:rPr><w:t xml:space=\"preserve\">");
    push_all(&mut out, &xml_escape(text));
    push_str(&mut out, "</w:t></w:r>");
    assert(out@ =~= run_xml_spec(text@, st@));
    out
}

/// `&nbsp;`, `&amp;`, `&lt;`, `&gt;` and `&quot;` read back, in that order.
pub open spec fn decode_entities_spec(s: Seq<char>) -> Seq<char> {
    replace(
        replace(replace(replace(replace(s, "&nbsp;"@, " "@), "&amp;"@, "&"@), "&lt;"@, "<"@), "&gt;"@, ">"@),
        "&quot;"@,
        "\""@,
    )
}

fn decode_entities(s: &Vec<char>) -> (out: Vec<char>)
    ensures
        out@ == decode_entities_spec(s@),
{
    proof {
        reveal_strlit("&nbsp;");
        reveal_strlit("&amp;");
        reveal_strlit("&lt;");
        reveal_strlit("&gt;");
        reveal_strlit("&quot;");
    }
    let a = replace_exec(s, &chars_of("&nbsp;"), &chars_of(" "));
    let b = replace_exec(&a, &chars_of("&amp;"), &chars_of("&"));
    let c = replace_exec(&b, &chars_of("&lt;"), &chars_of("<"));
    let d = replace_exec(&c, &chars_of("&gt;"), &chars_of(">"));
    replace_exec(&d, &chars_of("&quot;"), &chars_of("\""))
}

/// The first run of digits in `s` (after anything that is not a digit).
pub open spec fn first_digits(s: Seq<char>) -> Seq<char> {
    let k = skip_non_digits(s, 0);
    s.subrange(k, take_digits(s, k))
}

pub open spec fn skip_non_digits(s: Seq<char>, k: int) -> int
    decreases s.len() - k,
{
    if k < 0 || k >= s.len() || is_ascii_digit(s[k]) {
        k
    } else {
        skip_non_digits(s, k + 1)
    }
}

pub open spec fn take_digits(s: Seq<char>, k: int) -> int
    decreases s.len() - k,
{
    if k < 0 || k >= s.len() || !is_ascii_digit(s[k]) {
        k
    } else {
        take_digits(s, k + 1)
    }
}

/// The style of a `span` or `font` tag: bold, italic and underline from the CSS
/// in `tag` (lower-cased), and a size from `font-size:` where it is between 1
/// and 79 points.
pub open spec fn apply_css(st: RunStyle, tag: Seq<char>) -> RunStyle {
    let lower = ascii_lower_seq(tag);
    let bold = st.bold || contains(lower, "font-weight:bold"@) || contains(
        lower,
        "font-weight: bold"@,
    ) || contains(lower, "font-weight:700"@) || contains(lower, "font-weight: 700"@) || contains(
        lower,
        "font-weight:600"@,
    );
    let italic = st.italic || contains(lower, "font-style:italic"@) || contains(
        lower,
        "font-style: italic"@,
    );
    let underline = st.underline || contains(lower, "underline"@);
    let size = match find(lower, "font-size:"@) {
        Some(pt) => match parse_u32_spec(first_digits(lower.skip(pt + 10))) {
            Some(n) => if 1 <= n < 80 {
                n
            } else {
                st.size
            },
            None => st.size,
        },
        None => st.size,
    };
    RunStyle { bold, italic, underline, size, font: st.font }
}

proof fn lemma_skip_bounds(s: Seq<char>, k: int)
    requires
        0 <= k <= s.len(),
    ensures
        k <= skip_non_digits(s, k) <= s.len(),
        k <= take_digits(s, k) <= s.len(),
    decreases s.len() - k,
{
    if k < s.len() {
        lemma_skip_bounds(s, k + 1);
    }
}

fn apply_css_style(st: &mut Style, tag: &Vec<char>)
    ensures
        final(st)@ == apply_css(old(st)@, tag@),
{
    proof {
        reveal_strlit("font-size:");
    }
    let lower = lower_chars(tag);
    if contains_exec(&lower, &chars_of("font-weight:bold")) || contains_exec(
        &lower,
        &chars_of("font-weight: bold"),
    ) || contains_exec(&lower, &chars_of("font-weight:700")) || contains_exec(
        &lower,
        &chars_of("font-weight: 700"),
    ) || contains_exec(&lower, &chars_of("font-weight:600")) {
        st.bold = true;
    }
    if contains_exec(&lower, &chars_of("font-style:italic")) || contains_exec(
        &lower,
        &chars_of("font-style: italic"),
    ) {
        st.italic = true;
    }
    if contains_exec(&lower, &chars_of("underline")) {
        st.underline = true;
    }
    let fs = chars_of("font-size:");
    let found = find_from_exec(&lower, &fs, 0);
    proof {
        lemma_find_from_bounds(lower@, fs@, 0);
    }
    assert(fs@.len() == 10);
    if let Some(pt) = found {
        assert(pt + 10 <= lower@.len());
        assert(pt + 10 <= lower.len());
        let start = pt + 10;
        let ghost sl = lower@.skip(start as int);
        let mut k = start;
        while k < lower.len() && !('0' <= lower[k] && lower[k] <= '9')
            invariant
                start <= k <= lower.len(),
                sl == lower@.skip(start as int),
                skip_non_digits(sl, 0) == skip_non_digits(sl, k - start),
            decreases lower.len() - k,
        {
            assert(sl[k - start] == lower@[k as int]);
            assert(skip_non_digits(sl, k - start) == skip_non_digits(sl, k - start + 1));
            k = k + 1;
        }
        assert(k < lower.len() ==> sl[k - start] == lower@[k as int]);
        let mut m = k;
        while m < lower.len() && '0' <= lower[m] && lower[m] <= '9'
            invariant
                start <= k <= m <= lower.len(),
                sl == lower@.skip(start as int),
                take_digits(sl, k - start) == take_digits(sl, m - start),
            decreases lower.len() - m,
        {
            assert(sl[m - start] == lower@[m as int]);
            assert(take_digits(sl, m - start) == take_digits(sl, m - start + 1));
            m = m + 1;
        }
        assert(m < lower.len() ==> sl[m - start] == lower@[m as int]);
        let mut digits: Vec<char> = Vec::new();
        push_range(&mut digits, &lower, k, m);
        assert(digits@ =~= first_digits(sl));
        if let Some(num) = parse_u32(&digits) {
            if 1 <= num && num < 80 {
                st.size = num;
            }
        }
    }
}

/// Where the text that starts at `i` ends: at the next `<` or the end.
pub open spec fn text_end(s: Seq<char>, i: int) -> int
    decreases s.len() - i,
{
    if i < 0 || i >= s.len() || s[i] == '<' {
        i
    } else {
        text_end(s, i + 1)
    }
}

/// The first word of `t`, up to white space.
pub open spec fn word_end(t: Seq<char>, k: int) -> int
    decreases t.len() - k,
{
    if k < 0 || k >= t.len() || is_ws(t[k]) {
        k
    } else {
        word_end(t, k + 1)
    }
}

/// `w` without leading `/`.
pub open spec fn strip_slashes(w: Seq<char>) -> Seq<char>
    decreases w.len(),
{
    if w.len() > 0 && w[0] == '/' {
        strip_slashes(w.drop_first())
    } else {
        w
    }
}

/// The text of the tag between `<` at `i` and `>` at `e`, trimmed and lower-cased.
pub open spec fn tag_text(s: Seq<char>, i: int, e: int) -> Seq<char> {
    ascii_lower_seq(trim(s.subrange(i + 1, e)))
}

/// The name of a tag: its first word without leading `/`.
pub open spec fn tag_name(t: Seq<char>) -> Seq<char> {
    strip_slashes(t.take(word_end(t, 0)))
}

/// The style inside an opening tag: `b`/`strong` bold, `i`/`em` italic, `u`
/// underlined, `span`/`font` by their CSS (read from `rest`, the text from the
/// tag on); any other tag keeps the style.
pub open spec fn open_tag_style(st: RunStyle, name: Seq<char>, rest: Seq<char>) -> RunStyle {
    if name == "b"@ || name == "strong"@ {
        RunStyle { bold: true, ..st }
    } else if name == "i"@ || name == "em"@ {
        RunStyle { italic: true, ..st }
    } else if name == "u"@ {
        RunStyle { underline: true, ..st }
    } else if name == "span"@ || name == "font"@ {
        apply_css(st, rest)
    } else {
        st
    }
}

/// Every `<` of `s` has a `>` at or after it (else the scan of runs would not
/// move on).
pub open spec fn lt_closed(s: Seq<char>) -> bool {
    forall|i: int| 0 <= i < s.len() && s[i] == '<' ==> #[trigger] find_from(s, seq!['>'], i) is Some
}

/// The runs of `s` from `i` on, with the style stack `stack`: a `<br>` gives a
/// break, a closing tag drops the innermost style (the outermost stays), an
/// opening tag adds one; text between tags, its entities read, gives a run in the
/// innermost style.
pub open spec fn runs_from(s: Seq<char>, i: int, stack: Seq<RunStyle>) -> Seq<char>
    decreases s.len() - i,
{
    if i < 0 || i >= s.len() || stack.len() == 0 {
        Seq::empty()
    } else if s[i] == '<' {
        match find_from(s, seq!['>'], i) {
            Some(e) => if !(i < e < s.len()) {
                Seq::empty()
            } else {
                let t = tag_text(s, i, e);
                let name = tag_name(t);
                if name == "br"@ {
                    "<w:r><w:br/></w:r>"@ + runs_from(s, e + 1, stack)
                } else if starts_with(t, seq!['/']) {
                    runs_from(
                        s,
                        e + 1,
                        if stack.len() > 1 {
                            stack.drop_last()
                        } else {
                            stack
                        },
                    )
                } else {
                    runs_from(s, e + 1, stack.push(open_tag_style(stack.last(), name, s.skip(i))))
                }
            },
            None => Seq::empty(),
        }
    } else {
        let j = text_end(s, i);
        if !(i < j <= s.len()) {
            Seq::empty()
        } else {
            let text = decode_entities_spec(s.subrange(i, j));
            if text.len() == 0 {
                runs_from(s, j, stack)
            } else {
                run_xml_spec(text, stack.last()) + runs_from(s, j, stack)
            }
        }
    }
}

/// The runs of an HTML fragment in the base style; one run of a space where it
/// gives none.
pub open spec fn html_to_runs_spec(html: Seq<char>, size: u32, font: Seq<char>) -> Seq<char> {
    let base = RunStyle { bold: false, italic: false, underline: false, size, font };
    let r = runs_from(html, 0, seq![base]);
    if r.len() == 0 {
        run_xml_spec(" "@, base)
    } else {
        r
    }
}

proof fn lemma_text_end_bounds(s: Seq<char>, i: int)
    requires
        0 <= i < s.len(),
        s[i] != '<',
    ensures
        i < text_end(s, i) <= s.len(),
        forall|k: int| i <= k < text_end(s, i) ==> s[k] != '<',
        text_end(s, i) < s.len() ==> s[text_end(s, i)] == '<',
    decreases s.len() - i,
{
    assert(text_end(s, i) == text_end(s, i + 1));
    if i + 1 < s.len() && s[i + 1] != '<' {
        lemma_text_end_bounds(s, i + 1);
    } else {
        assert(text_end(s, i + 1) == i + 1);
    }
}

fn tag_name_exec(t: &Vec<char>) -> (name: Vec<char>)
    ensures
        name@ == tag_name(t@),
{
    let mut k: usize = 0;
    while k < t.len() && !ws(t[k])
        invariant
            k <= t.len(),
            word_end(t@, 0) == word_end(t@, k as int),
        decreases t.len() - k,
    {
        k = k + 1;
    }
    let mut w: Vec<char> = Vec::new();
    push_range(&mut w, t, 0, k);
    assert(w@ =~= t@.take(k as int));
    let mut a: usize = 0;
    assert(w@.skip(0) =~= w@);
    while a < w.len() && w[a] == '/'
        invariant
            a <= w.len(),
            strip_slashes(w@) == strip_slashes(w@.skip(a as int)),
        decreases w.len() - a,
    {
        assert(w@.skip(a as int).drop_first() =~= w@.skip(a + 1));
        a = a + 1;
    }
    let mut name: Vec<char> = Vec::new();
    push_range(&mut name, &w, a, w.len());
    assert(name@ =~= w@.skip(a as int));
    name
}

/// The runs of an HTML fragment, in the style `size` and `font` at the outside.
pub fn html_to_runs(html: &Vec<char>, size: u32, font: &Vec<char>) -> (out: Vec<char>)
    requires
        lt_closed(html@),
    ensures
        out@ == html_to_runs_spec(html@, size, font@),
{
    let mut base_font: Vec<char> = Vec::new();
    push_all(&mut base_font, font);
    assert(base_font@ =~= font@);
    let mut stack: Vec<Style> = Vec::new();
    stack.push(Style { bold: false, italic: false, underline: false, size, font: base_font });
    let ghost base = RunStyle { bold: false, italic: false, underline: false, size, font: font@ };
    assert(stack@.map_values(|x: Style| x@) =~= seq![base]);
    let gt: Vec<char> = vec!['>'];
    assert(gt@ =~= seq!['>']);
    let mut out: Vec<char> = Vec::new();
    let mut i: usize = 0;
    while i < html.len()
        invariant
            i <= html.len(),
            lt_closed(html@),
            gt@ == seq!['>'],
            stack@.len() >= 1,
            runs_from(html@, 0, seq![base]) == out@ + runs_from(
                html@,
                i as int,
                stack@.map_values(|x: Style| x@),
            ),
        decreases html.len() - i,
    {
        let ghost sv = stack@.map_values(|x: Style| x@);
        let ghost before = out@;
        if html[i] == '<' {
            let found = find_from_exec(html, &gt, i);
            proof {
                lemma_find_from_bounds(html@, gt@, i as int);
                assert(find_from(html@, seq!['>'], i as int) is Some);
            }
            let e = match found {
                Some(e) => e,
                None => {
                    return out;
                },
            };
            assert(html@[e as int] == html@.subrange(e as int, e + 1)[0]);
            assert(e != i);
            let mut inner: Vec<char> = Vec::new();
            push_range(&mut inner, html, i + 1, e);
            let t = lower_chars(&trim_chars(&inner));
            let name = tag_name_exec(&t);
            if eq_chars(&name, &chars_of("br")) {
                push_str(&mut out, "<w:r><w:br/></w:r>");
                assert(before + ("<w:r><w:br/></w:r>"@ + runs_from(html@, e + 1, sv)) =~= out@
                    + runs_from(html@, e + 1, sv));
            } else if t.len() > 0 && t[0] == '/' {
                assert(crate::text::starts_with(t@, seq!['/'])) by {
                    assert(t@.subrange(0, 1) =~= seq!['/']);
                }
                if stack.len() > 1 {
                    stack.pop();
                    assert(stack@.map_values(|x: Style| x@) =~= sv.drop_last());
                }
            } else {
                assert(!crate::text::starts_with(t@, seq!['/'])) by {
                    if t@.len() > 0 {
                        assert(t@.subrange(0, 1)[0] == t@[0]);
                    }
                }
                let top = copy_style(&stack[stack.len() - 1]);
                assert(top@ == sv.last());
                let mut st = top;
                if eq_chars(&name, &chars_of("b")) || eq_chars(&name, &chars_of("strong")) {
                    st.bold = true;
                } else if eq_chars(&name, &chars_of("i")) || eq_chars(&name, &chars_of("em")) {
                    st.italic = true;
                } else if eq_chars(&name, &chars_of("u")) {
                    st.underline = true;
                } else if eq_chars(&name, &chars_of("span")) || eq_chars(&name, &chars_of("font")) {
                    let mut rest: Vec<char> = Vec::new();
                    push_range(&mut rest, html, i, html.len());
                    assert(rest@ =~= html@.skip(i as int));
                    apply_css_style(&mut st, &rest);
                }
                let ghost new_top = st@;
                assert(new_top == open_tag_style(sv.last(), name@, html@.skip(i as int)));
                stack.push(st);
                assert(stack@.map_values(|x: Style| x@) =~= sv.push(new_top));
            }
            i = e + 1;
        } else {
            proof {
                lemma_text_end_bounds(html@, i as int);
            }
            let mut j = i;
            while j < html.len() && html[j] != '<'
                invariant
                    i <= j <= html.len(),
                    text_end(html@, i as int) == text_end(html@, j as int),
                decreases html.len() - j,
            {
                j = j + 1;
            }
            let mut raw: Vec<char> = Vec::new();
            push_range(&mut raw, html, i, j);
            let text = decode_entities(&raw);
            if text.len() > 0 {
                let top = &stack[stack.len() - 1];
                assert(top@ == sv.last());
                push_all(&mut out, &run_xml(&text, top));
                assert(before + (run_xml_spec(text@, sv.last()) + runs_from(html@, j as int, sv))
                    =~= out@ + runs_from(html@, j as int, sv));
            }
            i = j;
        }
    }
    assert(out@ + Seq::<char>::empty() =~= out@);
    if out.len() == 0 {
        let st = Style { bold: false, italic: false, underline: false, size, font: copy_chars(font) };
        assert(st@ == base);
        let sp: Vec<char> = vec![' '];
        proof {
            reveal_strlit(" ");
        }
        assert(sp@ =~= " "@);
        return run_xml(&sp, &st);
    }
    out
}

/// `find_from` of `>` is a search for the character.
proof fn lemma_find_gt(s: Seq<char>, i: int)
    requires
        0 <= i,
    ensures
        find_from(s, seq!['>'], i) is Some <==> exists|j: int| i <= j < s.len() && s[j] == '>',
{
    lemma_find_from_bounds(s, seq!['>'], i);
    if let Some(k) = find_from(s, seq!['>'], i) {
        assert(s[k] == s.subrange(k, k + 1)[0]);
    } else {
        if exists|j: int| i <= j < s.len() && s[j] == '>' {
            let j = choose|j: int| i <= j < s.len() && s[j] == '>';
            assert(s.subrange(j, j + 1) =~= seq!['>']);
            assert(crate::text::matches_at(s, j, seq!['>']));
        }
    }
}

/// Whether every `<` of `s` has a `>` at or after it.
pub fn lt_closed_exec(s: &Vec<char>) -> (b: bool)
    ensures
        b == lt_closed(s@),
{
    let mut seen = false;
    let mut i = s.len();
    while i > 0
        invariant
            i <= s.len(),
            seen == exists|j: int| i <= j < s.len() && s@[j] == '>',
            forall|k: int|
                i <= k < s.len() && s@[k] == '<' ==> exists|j: int| k <= j < s.len() && s@[j] == '>',
        decreases i,
    {
        i = i - 1;
        if s[i] == '>' {
            seen = true;
        } else if s[i] == '<' && !seen {
            proof {
                lemma_find_gt(s@, i as int);
                assert(!(exists|j: int| i <= j < s.len() && s@[j] == '>')) by {
                    if exists|j: int| i <= j < s.len() && s@[j] == '>' {
                        let j = choose|j: int| i <= j < s.len() && s@[j] == '>';
                        assert(j != i);
                    }
                }
            }
            return false;
        }
        proof {
            if s@[i as int] != '>' {
                assert((exists|j: int| i <= j < s.len() && s@[j] == '>') == (exists|j: int|
                    i + 1 <= j < s.len() && s@[j] == '>'));
            }
            assert forall|k: int|
                i <= k < s.len() && s@[k] == '<' implies exists|j: int|
                k <= j < s.len() && s@[j] == '>' by {
                if k == i {
                    let j = choose|j: int| i <= j < s.len() && s@[j] == '>';
                    assert(k <= j < s.len() && s@[j] == '>');
                }
            }
        }
    }
    proof {
        assert forall|k: int| 0 <= k < s@.len() && s@[k] == '<' implies #[trigger] find_from(
            s@,
            seq!['>'],
            k,
        ) is Some by {
            lemma_find_gt(s@, k);
        }
    }
    true
}

// ---------------------------------------------------------------------------
// Paragraphs, tables, the document
// ---------------------------------------------------------------------------
/// The Word name of an alignment.
pub open spec fn jc_of(align: Seq<char>) -> Seq<char> {
    if align == "center"@ {
        "center"@
    } else if align == "right"@ {
        "right"@
    } else if align == "both"@ || align == "justify"@ {
        "both"@
    } else {
        "left"@
    }
}

/// A first-line indent in twips: `indent × 709` as an `i32` product wraps
/// (`indent` read as an `i32`).
pub open spec fn twips_of(indent: u32) -> int {
    let m = ((indent as nat) * 709) % 0x1_0000_0000;
    if m >= 0x8000_0000 {
        m - 0x1_0000_0000
    } else {
        m as int
    }
}

/// An HTML fragment as one Word paragraph.
pub open spec fn para_xml(html: Seq<char>, size: u32, font: Seq<char>, align: Seq<char>, indent: u32) -> Seq<char> {
    let indent_xml = if indent > 0 {
        "<w:ind w:firstLine=\""@ + dec_int(twips_of(indent)) + "\"/>"@
    } else {
        Seq::empty()
    };
    "<w:p><w:pPr><w:jc w:val=\""@ + jc_of(align) + "\"/>"@ + indent_xml
        + "<w:spacing w:before=\"0\" w:after=\"80\" w:line=\"276\" w:lineRule=\"auto\"/></w:pPr>"@
        + html_to_runs_spec(html, size, font) + "</w:p>"@
}

pub fn html_fragment_to_paragraphs(
    html: &Vec<char>,
    size: u32,
    font: &Vec<char>,
    align: &Vec<char>,
    indent: u32,
) -> (out: Vec<char>)
    requires
        lt_closed(html@),
    ensures
        out@ == para_xml(html@, size, font@, align@, indent),
{
    let jc: Vec<char> = if eq_chars(align, &chars_of("center")) {
        chars_of("center")
    } else if eq_chars(align, &chars_of("right")) {
        chars_of("right")
    } else if eq_chars(align, &chars_of("both")) || eq_chars(align, &chars_of("justify")) {
        chars_of("both")
    } else {
        chars_of("left")
    };
    let mut indent_xml: Vec<char> = Vec::new();
    if indent > 0 {
        let m: u64 = (indent as u64 * 709) % 4294967296;
        let twips: i64 = if m >= 2147483648 {
            m as i64 - 4294967296
        } else {
            m as i64
        };
        push_str(&mut indent_xml, "<w:ind w:firstLine=\"");
        push_all(&mut indent_xml, &dec_i64(twips));
        push_str(&mut indent_xml, "\"/>");
    }
    let runs = html_to_runs(html, size, font);
    let mut out: Vec<char> = chars_of("<w:p><w:pPr><w:jc w:val=\"");
    push_all(&mut out, &jc);
    push_str(&mut out, "\"/>");
    push_all(&mut out, &indent_xml);
    push_str(
        &mut out,
        "<w:spacing w:before=\"0\" w:after=\"80\" w:line=\"276\" w:lineRule=\"auto\"/></w:pPr>",
    );
    push_all(&mut out, &runs);
    push_str(&mut out, "</w:p>");
    assert(out@ =~= para_xml(html@, size, font@, align@, indent));
    out
}

/// The opening of a borderless full-width table of one row.
pub open spec fn table_head() -> Seq<char> {
    "<w:tbl><w:tblPr><w:tblW w:w=\"5000\" w:type=\"pct\"/><w:tblBorders><w:top w:val=\"none\" w:sz=\"0\"/><w:left w:val=\"none\" w:sz=\"0\"/><w:bottom w:val=\"none\" w:sz=\"0\"/><w:right w:val=\"none\" w:sz=\"0\"/><w:insideH w:val=\"none\" w:sz=\"0\"/><w:insideV w:val=\"none\" w:sz=\"0\"/></w:tblBorders><w:tblCellMar><w:top w:w=\"0\" w:type=\"dxa\"/><w:left w:w=\"0\" w:type=\"dxa\"/><w:bottom w:w=\"0\" w:type=\"dxa\"/><w:right w:w=\"80\" w:type=\"dxa\"/></w:tblCellMar></w:tblPr><w:tr>"@
}

/// Cell `i` of a table row of `n` columns.
pub open spec fn cell_piece(cell: Seq<char>, n: nat, size: u32, font: Seq<char>, align: Seq<char>, i: int) -> Seq<char> {
    let cell_align = if n == 2 && i + 1 == n {
        "right"@
    } else {
        align
    };
    "<w:tc><w:tcPr><w:tcW w:w=\""@ + dec(5000nat / n) + "\" w:type=\"pct\"/><w:vAlign w:val=\"top\"/></w:tcPr>"@
        + para_xml(cell, size, font, cell_align, 0) + "</w:tc>"@
}

fn cell_xml(cell: &Vec<char>, n: usize, w: &Vec<char>, size: u32, font: &Vec<char>, align: &Vec<char>, i: usize) -> (out: Vec<char>)
    requires
        lt_closed(cell@),
        2 <= n <= 4,
        w@ == dec((5000nat / (n as nat)) as nat),
    ensures
        out@ == cell_piece(cell@, n as nat, size, font@, align@, i as int),
{
    let cell_align: Vec<char> = if n == 2 && i == 1 {
        chars_of("right")
    } else {
        copy_chars(align)
    };
    let p = html_fragment_to_paragraphs(cell, size, font, &cell_align, 0);
    let mut xml: Vec<char> = chars_of("<w:tc><w:tcPr><w:tcW w:w=\"");
    push_all(&mut xml, w);
    push_str(&mut xml, "\" w:type=\"pct\"/><w:vAlign w:val=\"top\"/></w:tcPr>");
    push_all(&mut xml, &p);
    push_str(&mut xml, "</w:tc>");
    assert(xml@ =~= cell_piece(cell@, n as nat, size, font@, align@, i as int));
    xml
}

/// The cells of a table row from `i` on: `n` columns of equal width; with two
/// columns the last is aligned right.
pub open spec fn cells_xml(cells: Seq<Seq<char>>, n: nat, size: u32, font: Seq<char>, align: Seq<char>, i: int) -> Seq<char>
    decreases cells.len() - i,
{
    if i < 0 || i >= cells.len() || n == 0 {
        Seq::empty()
    } else {
        cell_piece(cells[i], n, size, font, align, i) + cells_xml(
            cells,
            n,
            size,
            font,
            align,
            i + 1,
        )
    }
}

/// The text parts of a block, each filled.
pub open spec fn filled_cells(b: Block, fields: Seq<Field>, values: Seq<(String, FieldValue)>) -> Seq<Seq<char>> {
    block_cells_spec(b).map_values(|c: Seq<char>| fill_fold(c, fields, values))
}

/// A block as Word XML: one paragraph, or a table row of its parts.
pub open spec fn block_xml(b: Block, fields: Seq<Field>, values: Seq<(String, FieldValue)>) -> Seq<char> {
    let font = or_default(b.font, "Times New Roman"@);
    let size: u32 = match b.size {
        Some(s) => s,
        None => 14,
    };
    let align = or_default(b.align, "left"@);
    let indent: u32 = match b.indent {
        Some(i) => i,
        None => 0,
    };
    let cells = filled_cells(b, fields, values);
    let n: nat = if cells.len() < 1 {
        1
    } else if cells.len() > 4 {
        4
    } else {
        cells.len()
    };
    if n == 1 {
        para_xml(cells[0], size, font, align, indent)
    } else {
        table_head() + cells_xml(cells, n, size, font, align, 0) + "</w:tr></w:tbl>"@
    }
}

/// Every filled part of the block can be scanned for runs.
pub open spec fn block_ready(b: Block, fields: Seq<Field>, values: Seq<(String, FieldValue)>) -> bool {
    forall|k: int| 0 <= k < filled_cells(b, fields, values).len() ==> lt_closed(#[trigger] filled_cells(b, fields, values)[k])
}

fn fill_cell(c: &Vec<char>, fields: &Vec<Field>, values: &Vec<(String, FieldValue)>) -> (out: Vec<char>)
    ensures
        out@ == fill_fold(c@, fields@, values@),
{
    chars_of(fill_placeholders(string_of(c).as_str(), fields, values).as_str())
}

fn filled_cells_exec(b: &Block, fields: &Vec<Field>, values: &Vec<(String, FieldValue)>) -> (cells: Vec<Vec<char>>)
    ensures
        cells@.len() == filled_cells(*b, fields@, values@).len(),
        forall|k: int| 0 <= k < cells@.len() ==> #[trigger] cells@[k]@ == filled_cells(*b, fields@, values@)[k],
{
    let raw = block_cells(b);
    let mut cells: Vec<Vec<char>> = Vec::new();
    let mut i: usize = 0;
    while i < raw.len()
        invariant
            i <= raw.len(),
            raw@.len() == block_cells_spec(*b).len(),
            forall|k: int| 0 <= k < raw@.len() ==> #[trigger] raw@[k]@ == block_cells_spec(*b)[k],
            cells@.len() == i,
            forall|k: int| 0 <= k < i ==> #[trigger] cells@[k]@ == filled_cells(*b, fields@, values@)[k],
        decreases raw.len() - i,
    {
        let f = fill_cell(&raw[i], fields, values);
        cells.push(f);
        i = i + 1;
    }
    cells
}

fn block_to_xml(b: &Block, fields: &Vec<Field>, values: &Vec<(String, FieldValue)>) -> (out: Vec<char>)
    requires
        block_ready(*b, fields@, values@),
    ensures
        out@ == block_xml(*b, fields@, values@),
{
    let font = match &b.font {
        Some(f) => chars_of(f.as_str()),
        None => chars_of("Times New Roman"),
    };
    let size: u32 = match b.size {
        Some(s) => s,
        None => 14,
    };
    let align = match &b.align {
        Some(a) => chars_of(a.as_str()),
        None => chars_of("left"),
    };
    let indent: u32 = match b.indent {
        Some(i) => i,
        None => 0,
    };
    let cells = filled_cells_exec(b, fields, values);
    let ghost fc = filled_cells(*b, fields@, values@);
    let n: usize = if cells.len() < 1 {
        1
    } else if cells.len() > 4 {
        4
    } else {
        cells.len()
    };
    if n == 1 {
        if cells.len() == 0 {
            assert(block_cells_spec(*b).len() >= 1);
        }
        assert(lt_closed(fc[0]));
        return html_fragment_to_paragraphs(&cells[0], size, &font, &align, indent);
    }
    let mut xml: Vec<char> = chars_of(
        "<w:tbl><w:tblPr><w:tblW w:w=\"5000\" w:type=\"pct\"/><w:tblBorders><w:top w:val=\"none\" w:sz=\"0\"/><w:left w:val=\"none\" w:sz=\"0\"/><w:bottom w:val=\"none\" w:sz=\"0\"/><w:right w:val=\"none\" w:sz=\"0\"/><w:insideH w:val=\"none\" w:sz=\"0\"/><w:insideV w:val=\"none\" w:sz=\"0\"/></w:tblBorders><w:tblCellMar><w:top w:w=\"0\" w:type=\"dxa\"/><w:left w:w=\"0\" w:type=\"dxa\"/><w:bottom w:w=\"0\" w:type=\"dxa\"/><w:right w:w=\"80\" w:type=\"dxa\"/></w:tblCellMar></w:tblPr><w:tr>",
    );
    let ghost head = xml@;
    let w = dec_chars((5000 / n) as u64);
    let mut i: usize = 0;
    while i < cells.len()
        invariant
            i <= cells.len(),
            2 <= n <= 4,
            cells@.len() == fc.len(),
            forall|k: int| 0 <= k < cells@.len() ==> #[trigger] cells@[k]@ == fc[k],
            forall|k: int| 0 <= k < fc.len() ==> lt_closed(#[trigger] fc[k]),
            w@ == dec((5000nat / (n as nat)) as nat),
            head + cells_xml(fc, n as nat, size, font@, align@, 0) == xml@ + cells_xml(
                fc,
                n as nat,
                size,
                font@,
                align@,
                i as int,
            ),
        decreases cells.len() - i,
    {
        let ghost before = xml@;
        assert(lt_closed(fc[i as int]));
        let piece = cell_xml(&cells[i], n, &w, size, &font, &align, i);
        push_all(&mut xml, &piece);
        assert(before + cells_xml(fc, n as nat, size, font@, align@, i as int) =~= xml@ + cells_xml(
            fc,
            n as nat,
            size,
            font@,
            align@,
            i + 1,
        ));
        i = i + 1;
    }
    assert(cells_xml(fc, n as nat, size, font@, align@, i as int) == Seq::<char>::empty());
    push_str(&mut xml, "</w:tr></w:tbl>");
    assert(xml@ =~= block_xml(*b, fields@, values@));
    xml
}

fn copy_chars(v: &Vec<char>) -> (r: Vec<char>)
    ensures
        r@ == v@,
{
    let mut r: Vec<char> = Vec::new();
    push_all(&mut r, v);
    assert(r@ =~= v@);
    r
}


// ---------------------------------------------------------------------------
// The whole document
// ---------------------------------------------------------------------------
/// The blocks of a parsed layout; none where the body is no layout.
pub open spec fn layout_blocks(parsed: Option<Layout>) -> Seq<Block> {
    match parsed {
        Some(l) => l.blocks@,
        None => Seq::empty(),
    }
}

/// Each block in turn as Word XML.
pub open spec fn blocks_xml(bs: Seq<Block>, fields: Seq<Field>, values: Seq<(String, FieldValue)>) -> Seq<char>
    decreases bs.len(),
{
    if bs.len() == 0 {
        Seq::empty()
    } else {
        block_xml(bs[0], fields, values) + blocks_xml(bs.drop_first(), fields, values)
    }
}

/// The filled HTML of a body, used where the body has no blocks.
pub open spec fn filled_html(body: Seq<char>, parsed: Option<Layout>, fields: Seq<Field>, values: Seq<(String, FieldValue)>) -> Seq<char> {
    fill_fold(to_html_spec(body, parsed), fields, values)
}

/// The paragraphs and tables of a filled template: its blocks where the layout
/// has any, otherwise its whole HTML as one paragraph of 14 pt Times New Roman.
pub open spec fn layout_body_xml(body: Seq<char>, parsed: Option<Layout>, fields: Seq<Field>, values: Seq<(String, FieldValue)>) -> Seq<char> {
    let bs = layout_blocks(parsed);
    if bs.len() == 0 {
        para_xml(filled_html(body, parsed, fields, values), 14, "Times New Roman"@, "left"@, 0)
    } else {
        blocks_xml(bs, fields, values)
    }
}

/// Every piece of HTML that becomes runs has each `<` closed by a `>`.
pub open spec fn layout_ready(body: Seq<char>, parsed: Option<Layout>, fields: Seq<Field>, values: Seq<(String, FieldValue)>) -> bool {
    let bs = layout_blocks(parsed);
    if bs.len() == 0 {
        lt_closed(filled_html(body, parsed, fields, values))
    } else {
        forall|k: int| 0 <= k < bs.len() ==> block_ready(#[trigger] bs[k], fields, values)
    }
}

/// The main part of a document on A4 with the usual margins.
pub open spec fn a4_document(inner: Seq<char>) -> Seq<char> {
    "<?xml version=\"1.0\" encoding=\"UTF-8\" standalone=\"yes\"?><w:document xmlns:w=\"http://schemas.openxmlformats.org/wordprocessingml/2006/main\"><w:body>"@
        + inner
        + "<w:sectPr><w:pgSz w:w=\"11906\" w:h=\"16838\"/><w:pgMar w:top=\"1134\" w:right=\"850\" w:bottom=\"1134\" w:left=\"1134\"/></w:sectPr></w:body></w:document>"@
}

/// Whether [`layout_to_docx`] can lay out this template: each `<` of the HTML
/// that becomes runs has a `>` after it.
pub fn layout_docx_ready(body: &str, parsed: &Option<Layout>, fields: &Vec<Field>, values: &Vec<(String, FieldValue)>) -> (b: bool)
    ensures
        b == layout_ready(body@, *parsed, fields@, values@),
{
    let ghost bs = layout_blocks(*parsed);
    let empty = match parsed {
        Some(l) => l.blocks.len() == 0,
        None => true,
    };
    if empty {
        let html = fill_placeholders(to_html(body, parsed).as_str(), fields, values);
        return lt_closed_exec(&chars_of(html.as_str()));
    }
    let blocks = &parsed.as_ref().unwrap().blocks;
    let mut i: usize = 0;
    while i < blocks.len()
        invariant
            i <= blocks.len(),
            blocks@ == bs,
            bs.len() > 0,
            bs == layout_blocks(*parsed),
            forall|k: int| 0 <= k < i ==> block_ready(#[trigger] bs[k], fields@, values@),
        decreases blocks.len() - i,
    {
        let cells = filled_cells_exec(&blocks[i], fields, values);
        let mut j: usize = 0;
        while j < cells.len()
            invariant
                j <= cells.len(),
                i < bs.len(),
                bs.len() > 0,
                bs == layout_blocks(*parsed),
                cells@.len() == filled_cells(bs[i as int], fields@, values@).len(),
                forall|k: int| 0 <= k < cells@.len() ==> #[trigger] cells@[k]@ == filled_cells(bs[i as int], fields@, values@)[k],
                forall|k: int| 0 <= k < j ==> lt_closed(#[trigger] filled_cells(bs[i as int], fields@, values@)[k]),
            decreases cells.len() - j,
        {
            if !lt_closed_exec(&cells[j]) {
                assert(!block_ready(bs[i as int], fields@, values@));
                return false;
            }
            j = j + 1;
        }
        i = i + 1;
    }
    true
}

/// A filled template as a `.docx`: each block of its layout as a paragraph
/// or a table row, or, where it has none, its HTML as one paragraph.
/// `parsed` is the trimmed body read as a JSON layout, where it reads as one.
pub fn layout_to_docx(body: &str, parsed: &Option<Layout>, fields: &Vec<Field>, values: &Vec<(String, FieldValue)>) -> (r: Result<Vec<u8>, AppError>)
    requires
        layout_ready(body@, *parsed, fields@, values@),
    ensures
        r matches Ok(b) ==> b@ == zip_bytes_of(
            package_entries(a4_document(layout_body_xml(body@, *parsed, fields@, values@))),
        ),
        r matches Ok(b) ==> (archive_files(b@) matches Ok(es) && es == package_entries(
            a4_document(layout_body_xml(body@, *parsed, fields@, values@)),
        )),
        r matches Ok(b) ==> (zip_text_result(b@, "word/document.xml"@) matches Ok(Some(d)) && d
            == a4_document(layout_body_xml(body@, *parsed, fields@, values@))),
        r matches Err(e) ==> e is Internal,
        package_fits(a4_document(layout_body_xml(body@, *parsed, fields@, values@))) ==> r is Ok,
{
    let ghost bs = layout_blocks(*parsed);
    let empty = match parsed {
        Some(l) => l.blocks.len() == 0,
        None => true,
    };
    let mut inner: Vec<char> = Vec::new();
    if empty {
        let html = fill_placeholders(to_html(body, parsed).as_str(), fields, values);
        let h = chars_of(html.as_str());
        inner = html_fragment_to_paragraphs(&h, 14, &chars_of("Times New Roman"), &chars_of("left"), 0);
    } else {
        let blocks = &parsed.as_ref().unwrap().blocks;
        let mut i: usize = 0;
        assert(bs.skip(0) =~= bs);
        while i < blocks.len()
            invariant
                i <= blocks.len(),
                blocks@ == bs,
                bs.len() > 0,
                forall|k: int| 0 <= k < bs.len() ==> block_ready(#[trigger] bs[k], fields@, values@),
                blocks_xml(bs, fields@, values@) == inner@ + blocks_xml(bs.skip(i as int), fields@, values@),
            decreases blocks.len() - i,
        {
            assert(block_ready(bs[i as int], fields@, values@));
            let x = block_to_xml(&blocks[i], fields, values);
            let ghost before = inner@;
            push_all(&mut inner, &x);
            assert(bs.skip(i as int).drop_first() =~= bs.skip(i + 1));
            assert(bs.skip(i as int)[0] == bs[i as int]);
            assert(before + blocks_xml(bs.skip(i as int), fields@, values@) =~= inner@ + blocks_xml(
                bs.skip(i + 1),
                fields@,
                values@,
            ));
            i = i + 1;
        }
        assert(bs.skip(i as int) =~= Seq::<Block>::empty());
        assert(inner@ + Seq::<char>::empty() =~= inner@);
    }
    pack_docx(&inner)
}

/// A `.docx` whose body holds `inner`, on A4.
fn pack_docx(inner: &Vec<char>) -> (r: Result<Vec<u8>, AppError>)
    ensures
        r matches Ok(b) ==> b@ == zip_bytes_of(package_entries(a4_document(inner@))),
        r matches Ok(b) ==> (archive_files(b@) matches Ok(es) && es == package_entries(
            a4_document(inner@),
        )),
        r matches Ok(b) ==> (zip_text_result(b@, "word/document.xml"@) matches Ok(Some(d)) && d
            == a4_document(inner@)),
        r matches Err(e) ==> e is Internal,
        package_fits(a4_document(inner@)) ==> r is Ok,
{
    let mut document: Vec<char> = chars_of(
        "<?xml version=\"1.0\" encoding=\"UTF-8\" standalone=\"yes\"?><w:document xmlns:w=\"http://schemas.openxmlformats.org/wordprocessingml/2006/main\"><w:body>",
    );
    push_all(&mut document, inner);
    push_str(
        &mut document,
        "<w:sectPr><w:pgSz w:w=\"11906\" w:h=\"16838\"/><w:pgMar w:top=\"1134\" w:right=\"850\" w:bottom=\"1134\" w:left=\"1134\"/></w:sectPr></w:body></w:document>",
    );
    assert(document@ =~= a4_document(inner@));
    docx_package(&document)
}

/// The opening of a Word paragraph aligned by `jc`.
pub open spec fn jc_opening(jc: Seq<char>) -> Seq<char> {
    "<w:p><w:pPr><w:jc w:val=\""@ + jc + "\"/>"@
}

/// A paragraph opens with the Word alignment of its layout alignment.
proof fn lemma_para_opening(html: Seq<char>, size: u32, font: Seq<char>, align: Seq<char>, indent: u32)
    ensures
        starts_with(para_xml(html, size, font, align, indent), jc_opening(jc_of(align))),
{
    let x = para_xml(html, size, font, align, indent);
    let o = jc_opening(jc_of(align));
    assert(x.subrange(0, o.len() as int) =~= o);
}

/// The four openings, spelled out.
proof fn lemma_jc_openings()
    ensures
        "<w:p><w:pPr><w:jc w:val=\"center\"/>"@ == jc_opening("center"@),
        "<w:p><w:pPr><w:jc w:val=\"right\"/>"@ == jc_opening("right"@),
        "<w:p><w:pPr><w:jc w:val=\"both\"/>"@ == jc_opening("both"@),
        "<w:p><w:pPr><w:jc w:val=\"left\"/>"@ == jc_opening("left"@),
{
    reveal_strlit("<w:p><w:pPr><w:jc w:val=\"");
    reveal_strlit("\"/>");
    reveal_strlit("center");
    reveal_strlit("right");
    reveal_strlit("both");
    reveal_strlit("left");
    reveal_strlit("<w:p><w:pPr><w:jc w:val=\"center\"/>");
    reveal_strlit("<w:p><w:pPr><w:jc w:val=\"right\"/>");
    reveal_strlit("<w:p><w:pPr><w:jc w:val=\"both\"/>");
    reveal_strlit("<w:p><w:pPr><w:jc w:val=\"left\"/>");
    assert("<w:p><w:pPr><w:jc w:val=\"center\"/>"@ =~= jc_opening("center"@));
    assert("<w:p><w:pPr><w:jc w:val=\"right\"/>"@ =~= jc_opening("right"@));
    assert("<w:p><w:pPr><w:jc w:val=\"both\"/>"@ =~= jc_opening("both"@));
    assert("<w:p><w:pPr><w:jc w:val=\"left\"/>"@ =~= jc_opening("left"@));
}

/// Law: a paragraph is aligned in Word as its layout asks: `center` centred,
/// `right` to the right, `both` and `justify` justified (`both`), anything
/// else to the left.
pub proof fn law_paragraph_alignment(html: Seq<char>, size: u32, font: Seq<char>, align: Seq<char>, indent: u32)
    ensures
        align == "center"@ ==> starts_with(para_xml(html, size, font, align, indent), "<w:p><w:pPr><w:jc w:val=\"center\"/>"@),
        align == "right"@ ==> starts_with(para_xml(html, size, font, align, indent), "<w:p><w:pPr><w:jc w:val=\"right\"/>"@),
        align == "both"@ || align == "justify"@ ==> starts_with(
            para_xml(html, size, font, align, indent),
            "<w:p><w:pPr><w:jc w:val=\"both\"/>"@,
        ),
        align != "center"@ && align != "right"@ && align != "both"@ && align != "justify"@
            ==> starts_with(para_xml(html, size, font, align, indent), "<w:p><w:pPr><w:jc w:val=\"left\"/>"@),
{
    lemma_para_opening(html, size, font, align, indent);
    lemma_jc_openings();
    lemma_align_names_differ();
}

/// The alignment names differ (by their first letters).
proof fn lemma_align_names_differ()
    ensures
        "center"@ != "right"@,
        "center"@ != "both"@,
        "center"@ != "justify"@,
        "center"@ != "left"@,
        "right"@ != "both"@,
        "right"@ != "justify"@,
        "right"@ != "left"@,
        "both"@ != "left"@,
        "justify"@ != "left"@,
{
    reveal_strlit("center");
    reveal_strlit("right");
    reveal_strlit("both");
    reveal_strlit("justify");
    reveal_strlit("left");
    assert("center"@[0] == 'c' && "right"@[0] == 'r' && "both"@[0] == 'b' && "justify"@[0] == 'j'
        && "left"@[0] == 'l');
}

/// Law: a block of one cell is written as one Word paragraph aligned as the
/// block asks (`left` where it asks nothing): see `law_paragraph_alignment`.
pub proof fn law_block_alignment(b: Block, fields: Seq<Field>, values: Seq<(String, FieldValue)>)
    requires
        filled_cells(b, fields, values).len() <= 1,
    ensures
        b.align is None ==> starts_with(block_xml(b, fields, values), "<w:p><w:pPr><w:jc w:val=\"left\"/>"@),
        (b.align matches Some(a) && a@ == "center"@) ==> starts_with(block_xml(b, fields, values), "<w:p><w:pPr><w:jc w:val=\"center\"/>"@),
        (b.align matches Some(a) && a@ == "right"@) ==> starts_with(block_xml(b, fields, values), "<w:p><w:pPr><w:jc w:val=\"right\"/>"@),
        (b.align matches Some(a) && (a@ == "both"@ || a@ == "justify"@)) ==> starts_with(
            block_xml(b, fields, values),
            "<w:p><w:pPr><w:jc w:val=\"both\"/>"@,
        ),
{
    let font = or_default(b.font, "Times New Roman"@);
    let size: u32 = match b.size {
        Some(s) => s,
        None => 14,
    };
    let align = or_default(b.align, "left"@);
    let indent: u32 = match b.indent {
        Some(i) => i,
        None => 0,
    };
    let cells = filled_cells(b, fields, values);
    assert(block_xml(b, fields, values) == para_xml(cells[0], size, font, align, indent));
    law_paragraph_alignment(cells[0], size, font, align, indent);
    lemma_align_names_differ();
}

} // verus!
