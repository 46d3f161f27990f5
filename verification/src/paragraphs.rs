//! Rewriting the text of WordprocessingML paragraphs in place: the text of a
//! paragraph is gathered from its `<w:t>` runs (a placeholder may be split over
//! several), changed, and written back into the first run.
use vstd::prelude::*;

use crate::marks::{collect_marks, marks_spec, marks_view, placeholder};
use crate::text::{
    chars_of, contains, contains_exec, eq_chars, find_from, find_from_exec, lemma_find_from_bounds,
    push_all, push_range, push_str, replace, replace_exec,
};

verus! {

// ---------------------------------------------------------------------------
// Escaping
// ---------------------------------------------------------------------------
/// `&`, `<` and `>` written as XML entities.
pub open spec fn xml_escape_spec(s: Seq<char>) -> Seq<char> {
    replace(replace(replace(s, "&"@, "&amp;"@), "<"@, "&lt;"@), ">"@, "&gt;"@)
}

/// `&lt;`, `&gt;`, `&amp;` and `&quot;` read back, in that order.
pub open spec fn xml_unescape_spec(s: Seq<char>) -> Seq<char> {
    replace(replace(replace(replace(s, "&lt;"@, "<"@), "&gt;"@, ">"@), "&amp;"@, "&"@), "&quot;"@, "\""@)
}

fn replace_str(s: &Vec<char>, p: &str, r: &str) -> (out: Vec<char>)
    requires
        p@.len() > 0,
    ensures
        out@ == replace(s@, p@, r@),
{
    replace_exec(s, &chars_of(p), &chars_of(r))
}

pub fn xml_escape(s: &Vec<char>) -> (out: Vec<char>)
    ensures
        out@ == xml_escape_spec(s@),
{
    proof {
        reveal_strlit("&");
        reveal_strlit("<");
        reveal_strlit(">");
    }
    let a = replace_str(s, "&", "&amp;");
    let b = replace_str(&a, "<", "&lt;");
    replace_str(&b, ">", "&gt;")
}

pub fn xml_unescape(s: &Vec<char>) -> (out: Vec<char>)
    ensures
        out@ == xml_unescape_spec(s@),
{
    proof {
        reveal_strlit("&lt;");
        reveal_strlit("&gt;");
        reveal_strlit("&amp;");
        reveal_strlit("&quot;");
    }
    let a = replace_str(s, "&lt;", "<");
    let b = replace_str(&a, "&gt;", ">");
    let c = replace_str(&b, "&amp;", "&");
    replace_str(&c, "&quot;", "\"")
}

/// An archive entry whose XML is rewritten: an `.xml` part under `word/`, not a
/// relationships part (`\` counts as `/`).
pub open spec fn should_rewrite_spec(name: Seq<char>) -> bool {
    let n = replace(name, "\\"@, "/"@);
    crate::text::starts_with(n, "word/"@) && crate::text::ends_with(n, ".xml"@) && !contains(
        n,
        "/_rels/"@,
    )
}

pub fn should_rewrite(name: &str) -> (b: bool)
    ensures
        b == should_rewrite_spec(name@),
{
    proof {
        reveal_strlit("\\");
    }
    let n = replace_str(&chars_of(name), "\\", "/");
    let word = chars_of("word/");
    let xml = chars_of(".xml");
    let starts = crate::text::matches_at_exec(&n, 0, &word);
    let ends = xml.len() <= n.len() && crate::text::matches_at_exec(&n, n.len() - xml.len(), &xml);
    starts && ends && !contains_exec(&n, &chars_of("/_rels/"))
}

// ---------------------------------------------------------------------------
// Patterns
// ---------------------------------------------------------------------------
pub open spec fn pat_wt() -> Seq<char> {
    seq!['<', 'w', ':', 't']
}

pub open spec fn pat_wt_end() -> Seq<char> {
    seq!['<', '/', 'w', ':', 't', '>']
}

pub open spec fn pat_wp() -> Seq<char> {
    seq!['<', 'w', ':', 'p']
}

pub open spec fn pat_wp_end() -> Seq<char> {
    seq!['<', '/', 'w', ':', 'p', '>']
}

pub open spec fn pat_gt() -> Seq<char> {
    seq!['>']
}

// ---------------------------------------------------------------------------
// The text of a paragraph
// ---------------------------------------------------------------------------
/// The text of the `<w:t>` elements of `s` from index `r` on, unescaped and run
/// together. A tag `<w:t.../>` holds no text; the scan stops at a tag without `>`
/// or an element without `</w:t>`. (Any tag that starts with `<w:t` counts.)
pub open spec fn wt_texts_from(s: Seq<char>, r: int) -> Seq<char>
    decreases s.len() - r,
{
    if r < 0 || r > s.len() {
        Seq::empty()
    } else {
        match find_from(s, pat_wt(), r) {
            None => Seq::empty(),
            Some(start) => match find_from(s, pat_gt(), start) {
                None => Seq::empty(),
                Some(gt) => if !(r <= start && start < gt && gt < s.len()) {
                    Seq::empty()
                } else if s[gt - 1] == '/' {
                    wt_texts_from(s, gt + 1)
                } else {
                    match find_from(s, pat_wt_end(), gt + 1) {
                        None => Seq::empty(),
                        Some(end) => if !(gt + 1 <= end && end + 6 <= s.len()) {
                            Seq::empty()
                        } else {
                            xml_unescape_spec(s.subrange(gt + 1, end)) + wt_texts_from(s, end + 6)
                        },
                    }
                },
            },
        }
    }
}

/// The text of a paragraph.
pub open spec fn wt_texts(p: Seq<char>) -> Seq<char> {
    wt_texts_from(p, 0)
}

pub proof fn lemma_gt_after_start(s: Seq<char>, start: int)
    requires
        0 <= start,
        crate::text::matches_at(s, start, pat_wt()),
    ensures
        find_from(s, pat_gt(), start) matches Some(gt) ==> start + 4 <= gt < s.len(),
{
    lemma_find_from_bounds(s, pat_gt(), start);
    if let Some(gt) = find_from(s, pat_gt(), start) {
        assert(crate::text::matches_at(s, gt, pat_gt()));
        assert(s[gt] == s.subrange(gt, gt + 1)[0]);
        if gt < start + 4 {
            assert(s[gt] == s.subrange(start, start + 4)[gt - start]);
            assert(!crate::text::matches_at(s, gt, pat_gt()));
        }
    }
}

/// The text of a paragraph, unescaped and run together.
pub fn extract_wt_texts(p: &Vec<char>) -> (out: Vec<char>)
    ensures
        out@ == wt_texts(p@),
{
    let wt: Vec<char> = vec!['<', 'w', ':', 't'];
    let gtp: Vec<char> = vec!['>'];
    let wt_end: Vec<char> = vec!['<', '/', 'w', ':', 't', '>'];
    assert(wt@ =~= pat_wt());
    assert(gtp@ =~= pat_gt());
    assert(wt_end@ =~= pat_wt_end());
    let mut out: Vec<char> = Vec::new();
    let mut r: usize = 0;
    loop
        invariant
            wt@ == pat_wt(),
            gtp@ == pat_gt(),
            wt_end@ == pat_wt_end(),
            r <= p.len(),
            wt_texts(p@) == out@ + wt_texts_from(p@, r as int),
        decreases p.len() - r,
    {
        let ghost before = out@;
        let found = find_from_exec(p, &wt, r);
        proof {
            lemma_find_from_bounds(p@, pat_wt(), r as int);
        }
        let start = match found {
            None => {
                assert(before + Seq::empty() =~= before);
                return out;
            },
            Some(x) => x,
        };
        let gt_found = find_from_exec(p, &gtp, start);
        proof {
            lemma_gt_after_start(p@, start as int);
        }
        let gt = match gt_found {
            None => {
                assert(before + Seq::empty() =~= before);
                return out;
            },
            Some(x) => x,
        };
        if p[gt - 1] == '/' {
            r = gt + 1;
            continue;
        }
        let end_found = find_from_exec(p, &wt_end, gt + 1);
        proof {
            lemma_find_from_bounds(p@, pat_wt_end(), gt + 1);
        }
        let end = match end_found {
            None => {
                assert(before + Seq::empty() =~= before);
                return out;
            },
            Some(x) => x,
        };
        let mut content: Vec<char> = Vec::new();
        push_range(&mut content, p, gt + 1, end);
        assert(content@ =~= p@.subrange(gt + 1, end as int));
        let text = xml_unescape(&content);
        push_all(&mut out, &text);
        assert(before + (text@ + wt_texts_from(p@, end + 6)) =~= out@ + wt_texts_from(
            p@,
            end + 6,
        ));
        r = end + 6;
    }
}

// ---------------------------------------------------------------------------
// Writing a paragraph's text back
// ---------------------------------------------------------------------------
/// `s` from `r` on, with the first text element holding `esc` (when `first`) and
/// every later one emptied; tags `<w:t.../>` are kept. Where a tag has no `>`, or
/// an element no `</w:t>`, the text before it is written and then everything from
/// `r` on once more, as the scan left it.
pub open spec fn rewrite_from(s: Seq<char>, r: int, esc: Seq<char>, first: bool) -> Seq<char>
    decreases s.len() - r,
{
    if r < 0 || r > s.len() {
        Seq::empty()
    } else {
        match find_from(s, pat_wt(), r) {
            None => s.subrange(r, s.len() as int),
            Some(start) => if !(r <= start && start <= s.len()) {
                Seq::empty()
            } else {
                let pre = s.subrange(r, start);
                match find_from(s, pat_gt(), start) {
                    None => pre + s.subrange(r, s.len() as int),
                    Some(gt) => if !(start < gt && gt < s.len()) {
                        Seq::empty()
                    } else if s[gt - 1] == '/' {
                        pre + s.subrange(start, gt + 1) + rewrite_from(s, gt + 1, esc, first)
                    } else {
                        match find_from(s, pat_wt_end(), gt + 1) {
                            None => pre + s.subrange(r, s.len() as int),
                            Some(end) => if !(gt + 1 <= end && end + 6 <= s.len()) {
                                Seq::empty()
                            } else {
                                pre + (if first {
                                    "<w:t xml:space=\"preserve\">"@ + esc + "</w:t>"@
                                } else {
                                    "<w:t></w:t>"@
                                }) + rewrite_from(s, end + 6, esc, false)
                            },
                        }
                    },
                }
            },
        }
    }
}

/// A paragraph with its text set to `new_text`; unchanged where the text is the
/// same already or the paragraph has no `<w:t`.
pub open spec fn rewrite_paragraph_spec(p: Seq<char>, new_text: Seq<char>) -> Seq<char> {
    if wt_texts(p) == new_text || !contains(p, pat_wt()) {
        p
    } else {
        rewrite_from(p, 0, xml_escape_spec(new_text), true)
    }
}

pub fn rewrite_paragraph(p: &Vec<char>, new_text: &Vec<char>) -> (out: Vec<char>)
    ensures
        out@ == rewrite_paragraph_spec(p@, new_text@),
{
    let wt: Vec<char> = vec!['<', 'w', ':', 't'];
    let gtp: Vec<char> = vec!['>'];
    let wt_end: Vec<char> = vec!['<', '/', 'w', ':', 't', '>'];
    assert(wt@ =~= pat_wt());
    assert(gtp@ =~= pat_gt());
    assert(wt_end@ =~= pat_wt_end());
    let old_text = extract_wt_texts(p);
    if eq_chars(&old_text, new_text) || !contains_exec(p, &wt) {
        let mut same: Vec<char> = Vec::new();
        push_all(&mut same, p);
        assert(same@ =~= p@);
        return same;
    }
    let escaped = xml_escape(new_text);
    let mut out: Vec<char> = Vec::new();
    let mut r: usize = 0;
    let mut first = true;
    loop
        invariant
            wt@ == pat_wt(),
            gtp@ == pat_gt(),
            wt_end@ == pat_wt_end(),
            r <= p.len(),
            rewrite_paragraph_spec(p@, new_text@) == out@ + rewrite_from(
                p@,
                r as int,
                escaped@,
                first,
            ),
        decreases p.len() - r,
    {
        let ghost before = out@;
        let found = find_from_exec(p, &wt, r);
        proof {
            lemma_find_from_bounds(p@, pat_wt(), r as int);
        }
        let start = match found {
            None => {
                push_range(&mut out, p, r, p.len());
                return out;
            },
            Some(x) => x,
        };
        push_range(&mut out, p, r, start);
        let gt_found = find_from_exec(p, &gtp, start);
        proof {
            lemma_gt_after_start(p@, start as int);
        }
        let gt = match gt_found {
            None => {
                push_range(&mut out, p, r, p.len());
                assert(out@ =~= before + (p@.subrange(r as int, start as int) + p@.subrange(
                    r as int,
                    p@.len() as int,
                )));
                return out;
            },
            Some(x) => x,
        };
        if p[gt - 1] == '/' {
            push_range(&mut out, p, start, gt + 1);
            assert(before + (p@.subrange(r as int, start as int) + p@.subrange(
                start as int,
                gt + 1,
            ) + rewrite_from(p@, gt + 1, escaped@, first)) =~= out@ + rewrite_from(
                p@,
                gt + 1,
                escaped@,
                first,
            ));
            r = gt + 1;
            continue;
        }
        let end_found = find_from_exec(p, &wt_end, gt + 1);
        proof {
            lemma_find_from_bounds(p@, pat_wt_end(), gt + 1);
        }
        let end = match end_found {
            None => {
                push_range(&mut out, p, r, p.len());
                assert(out@ =~= before + (p@.subrange(r as int, start as int) + p@.subrange(
                    r as int,
                    p@.len() as int,
                )));
                return out;
            },
            Some(x) => x,
        };
        let ghost mid = out@;
        if first {
            push_str(&mut out, "<w:t xml:space=\"preserve\">");
            push_all(&mut out, &escaped);
            push_str(&mut out, "</w:t>");
            assert(out@ =~= mid + ("<w:t xml:space=\"preserve\">"@ + escaped@ + "</w:t>"@));
            first = false;
        } else {
            push_str(&mut out, "<w:t></w:t>");
        }
        assert(before + (p@.subrange(r as int, start as int) + (out@.subrange(
            mid.len() as int,
            out@.len() as int,
        )) + rewrite_from(p@, end + 6, escaped@, false)) =~= out@ + rewrite_from(
            p@,
            end + 6,
            escaped@,
            false,
        ));
        r = end + 6;
    }
}

// ---------------------------------------------------------------------------
// Paragraphs of a document
// ---------------------------------------------------------------------------
/// Where the next paragraph (`<w:p` followed by a space, `>` or `/`) starts, at
/// or after `i`.
pub open spec fn para_start_from(s: Seq<char>, i: int) -> Option<int>
    decreases s.len() - i,
{
    if i < 0 || i > s.len() {
        None
    } else {
        match find_from(s, pat_wp(), i) {
            None => None,
            Some(a) => if !(i <= a && a + 4 <= s.len()) {
                None
            } else if a + 4 < s.len() && (s[a + 4] == ' ' || s[a + 4] == '>' || s[a + 4] == '/') {
                Some(a)
            } else {
                para_start_from(s, a + 4)
            },
        }
    }
}

pub proof fn lemma_para_start_bounds(s: Seq<char>, i: int)
    ensures
        para_start_from(s, i) matches Some(a) ==> 0 <= i <= a && a + 4 < s.len(),
    decreases s.len() - i,
{
    if 0 <= i <= s.len() {
        lemma_find_from_bounds(s, pat_wp(), i);
        if let Some(a) = find_from(s, pat_wp(), i) {
            if i <= a && a + 4 <= s.len() {
                lemma_para_start_bounds(s, a + 4);
            }
        }
    }
}

/// `find_para_start` on `s` from index `i`.
pub fn find_para_start(s: &Vec<char>, i: usize) -> (r: Option<usize>)
    requires
        i <= s.len(),
    ensures
        r matches Some(a) ==> para_start_from(s@, i as int) == Some(a as int),
        r is None ==> para_start_from(s@, i as int) is None,
{
    let wp: Vec<char> = vec!['<', 'w', ':', 'p'];
    assert(wp@ =~= pat_wp());
    let mut search = i;
    loop
        invariant
            wp@ == pat_wp(),
            search <= s.len(),
            para_start_from(s@, i as int) == para_start_from(s@, search as int),
        decreases s.len() - search,
    {
        let found = find_from_exec(s, &wp, search);
        proof {
            lemma_find_from_bounds(s@, pat_wp(), search as int);
        }
        match found {
            None => {
                return None;
            },
            Some(a) => {
                if a + 4 < s.len() && (s[a + 4] == ' ' || s[a + 4] == '>' || s[a + 4] == '/') {
                    return Some(a);
                }
                search = a + 4;
            },
        }
    }
}

/// How the text of each paragraph is changed.
pub enum XmlRewrite {
    /// Every `{{key}}` replaced by its text, pair by pair in order.
    Fill(Vec<(String, String)>),
    /// Every placeholder rewritten to `{{key}}` with its own key.
    Normalize,
}

/// Replaces `{{k}}` by `v` for each pair in turn.
pub open spec fn fill_text(t: Seq<char>, reps: Seq<(Seq<char>, Seq<char>)>) -> Seq<char>
    decreases reps.len(),
{
    if reps.len() == 0 {
        t
    } else {
        fill_text(replace(t, placeholder(reps[0].0), reps[0].1), reps.drop_first())
    }
}

/// Rewrites `{{text}}` to `{{key}}` for each mark in turn whose text is not its key.
pub open spec fn normalize_fold(t: Seq<char>, ms: Seq<(Seq<char>, Seq<char>, Seq<char>)>) -> Seq<
    char,
>
    decreases ms.len(),
{
    if ms.len() == 0 {
        t
    } else {
        let m = ms[0];
        normalize_fold(
            if m.0 != m.1 {
                replace(t, placeholder(m.0), placeholder(m.1))
            } else {
                t
            },
            ms.drop_first(),
        )
    }
}

/// The pairs of a fill as plain values.
pub open spec fn reps_view(reps: Seq<(String, String)>) -> Seq<(Seq<char>, Seq<char>)> {
    reps.map_values(|p: (String, String)| (p.0@, p.1@))
}

/// The new text of a paragraph whose text is `t`.
pub open spec fn map_text(mode: XmlRewrite, t: Seq<char>) -> Seq<char> {
    match mode {
        XmlRewrite::Fill(reps) => fill_text(t, reps_view(reps@)),
        XmlRewrite::Normalize => normalize_fold(t, marks_spec(t)),
    }
}

fn placeholder_of(k: &Vec<char>) -> (out: Vec<char>)
    ensures
        out@ == placeholder(k@),
{
    let mut out: Vec<char> = vec!['{', '{'];
    push_all(&mut out, k);
    out.push('}');
    out.push('}');
    assert(out@ =~= placeholder(k@));
    out
}

/// The new text of a paragraph whose text is `t`.
fn apply_rewrite(mode: &XmlRewrite, t: &Vec<char>) -> (out: Vec<char>)
    ensures
        out@ == map_text(*mode, t@),
{
    let mut cur: Vec<char> = Vec::new();
    push_all(&mut cur, t);
    assert(cur@ =~= t@);
    match mode {
        XmlRewrite::Fill(reps) => {
            let ghost rv = reps_view(reps@);
            let mut i: usize = 0;
            assert(rv.skip(0) =~= rv);
            while i < reps.len()
                invariant
                    i <= reps.len(),
                    rv == reps_view(reps@),
                    fill_text(t@, rv) == fill_text(cur@, rv.skip(i as int)),
                decreases reps.len() - i,
            {
                assert(rv.skip(i as int).drop_first() =~= rv.skip(i + 1));
                let from = placeholder_of(&chars_of(reps[i].0.as_str()));
                cur = replace_exec(&cur, &from, &chars_of(reps[i].1.as_str()));
                i = i + 1;
            }
            assert(rv.skip(i as int) =~= Seq::empty());
            cur
        },
        XmlRewrite::Normalize => {
            let marks = collect_marks(t);
            let ghost ms = marks_spec(t@);
            let mut i: usize = 0;
            assert(ms.skip(0) =~= ms);
            while i < marks.len()
                invariant
                    i <= marks.len(),
                    marks_view(marks@) == ms,
                    normalize_fold(t@, ms) == normalize_fold(cur@, ms.skip(i as int)),
                decreases marks.len() - i,
            {
                assert(ms.skip(i as int).drop_first() =~= ms.skip(i + 1));
                assert(ms.skip(i as int)[0] == ms[i as int]);
                if !eq_chars(&marks[i].0, &marks[i].1) {
                    let from = placeholder_of(&marks[i].0);
                    let to = placeholder_of(&marks[i].1);
                    cur = replace_exec(&cur, &from, &to);
                }
                i = i + 1;
            }
            assert(ms.skip(i as int) =~= Seq::empty());
            cur
        },
    }
}

/// The change a rewrite makes to a paragraph's text.
pub open spec fn text_map(mode: XmlRewrite) -> spec_fn(Seq<char>) -> Seq<char> {
    |t: Seq<char>| map_text(mode, t)
}

/// `s` from `r` on with each paragraph's text `t` changed to `f(t)`; what lies
/// between paragraphs is kept.
pub open spec fn map_paras_from(s: Seq<char>, r: int, f: spec_fn(Seq<char>) -> Seq<char>) -> Seq<char>
    decreases s.len() - r,
{
    if r < 0 || r > s.len() {
        Seq::empty()
    } else {
        match para_start_from(s, r) {
            None => s.subrange(r, s.len() as int),
            Some(start) => if !(r <= start && start < s.len()) {
                Seq::empty()
            } else {
                match find_from(s, pat_wp_end(), start) {
                    None => s.subrange(r, start) + s.subrange(start, s.len() as int),
                    Some(e) => if !(start <= e && e + 6 <= s.len()) {
                        Seq::empty()
                    } else {
                        let para = s.subrange(start, e + 6);
                        s.subrange(r, start) + rewrite_paragraph_spec(para, f(wt_texts(para)))
                            + map_paras_from(s, e + 6, f)
                    },
                }
            },
        }
    }
}

/// A document's XML with each paragraph's text `t` changed to `f(t)`.
pub open spec fn map_paragraphs_spec(xml: Seq<char>, f: spec_fn(Seq<char>) -> Seq<char>) -> Seq<char> {
    map_paras_from(xml, 0, f)
}

pub fn map_paragraphs(xml: &Vec<char>, mode: &XmlRewrite) -> (out: Vec<char>)
    ensures
        out@ == map_paragraphs_spec(xml@, text_map(*mode)),
{
    let wp_end: Vec<char> = vec!['<', '/', 'w', ':', 'p', '>'];
    assert(wp_end@ =~= pat_wp_end());
    let mut out: Vec<char> = Vec::new();
    let mut r: usize = 0;
    loop
        invariant
            wp_end@ == pat_wp_end(),
            r <= xml.len(),
            map_paragraphs_spec(xml@, text_map(*mode)) == out@ + map_paras_from(
                xml@,
                r as int,
                text_map(*mode),
            ),
        decreases xml.len() - r,
    {
        let ghost before = out@;
        let found = find_para_start(xml, r);
        proof {
            lemma_para_start_bounds(xml@, r as int);
        }
        let start = match found {
            None => {
                push_range(&mut out, xml, r, xml.len());
                return out;
            },
            Some(x) => x,
        };
        push_range(&mut out, xml, r, start);
        let end_found = find_from_exec(xml, &wp_end, start);
        proof {
            lemma_find_from_bounds(xml@, pat_wp_end(), start as int);
        }
        let e = match end_found {
            None => {
                push_range(&mut out, xml, start, xml.len());
                return out;
            },
            Some(x) => x,
        };
        let mut para: Vec<char> = Vec::new();
        push_range(&mut para, xml, start, e + 6);
        assert(para@ =~= xml@.subrange(start as int, e + 6));
        let text = extract_wt_texts(&para);
        let new_text = apply_rewrite(mode, &text);
        let rewritten = rewrite_paragraph(&para, &new_text);
        push_all(&mut out, &rewritten);
        assert(before + (xml@.subrange(r as int, start as int) + rewritten@ + map_paras_from(
            xml@,
            e + 6,
            text_map(*mode),
        )) =~= out@ + map_paras_from(xml@, e + 6, text_map(*mode)));
        r = e + 6;
    }
}

} // verus!
