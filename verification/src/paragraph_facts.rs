//! What rewriting a paragraph's text guarantees: read back, the paragraph holds
//! the new text.
use vstd::prelude::*;

use crate::escaping::{lemma_escaped_has_no_lt, law_escape_round_trip};
use crate::paragraphs::{
    lemma_gt_after_start, pat_gt, pat_wt, pat_wt_end, rewrite_from, rewrite_paragraph_spec,
    wt_texts, wt_texts_from, xml_escape_spec, xml_unescape_spec,
};
use crate::marks::placeholder;
use crate::model::{value_text_spec, FieldValue};
use crate::paragraphs::fill_text;
use crate::text::{contains, find, find_from, lemma_find_from_bounds, matches_at, replace};
use crate::text_facts::{
    lemma_find_from_is, lemma_find_from_none, lemma_find_shift, lemma_matches_prefix, lemma_matches_shift,
};

verus! {

/// The scan of `s` from `r` meets only whole text elements: each `<w:t` has a
/// `>` after it and, unless it closes itself, a `</w:t>` after that.
pub open spec fn wt_well_formed(s: Seq<char>, r: int) -> bool
    decreases s.len() - r,
{
    if r < 0 || r > s.len() {
        false
    } else {
        match find_from(s, pat_wt(), r) {
            None => true,
            Some(start) => match find_from(s, pat_gt(), start) {
                None => false,
                Some(gt) => if !(r <= start && start < gt && gt < s.len()) {
                    false
                } else if s[gt - 1] == '/' {
                    wt_well_formed(s, gt + 1)
                } else {
                    match find_from(s, pat_wt_end(), gt + 1) {
                        None => false,
                        Some(end) => if !(gt + 1 <= end && end + 6 <= s.len()) {
                            false
                        } else {
                            wt_well_formed(s, end + 6)
                        },
                    }
                },
            },
        }
    }
}

/// The scan of `s` from `r` meets a text element that does not close itself.
pub open spec fn has_text_element(s: Seq<char>, r: int) -> bool
    decreases s.len() - r,
{
    if r < 0 || r > s.len() {
        false
    } else {
        match find_from(s, pat_wt(), r) {
            None => false,
            Some(start) => match find_from(s, pat_gt(), start) {
                None => false,
                Some(gt) => if !(r <= start && start < gt && gt < s.len()) {
                    false
                } else if s[gt - 1] == '/' {
                    has_text_element(s, gt + 1)
                } else {
                    true
                },
            },
        }
    }
}

/// Reading text from past a prefix reads the rest alone.
pub proof fn lemma_wt_texts_shift(a: Seq<char>, b: Seq<char>, k: int)
    requires
        0 <= k,
    ensures
        wt_texts_from(a + b, a.len() + k) == wt_texts_from(b, k),
    decreases b.len() - k,
{
    let s = a + b;
    let r = a.len() + k;
    if k > b.len() {
        return;
    }
    lemma_find_shift(a, b, pat_wt(), k);
    lemma_find_from_bounds(b, pat_wt(), k);
    match find_from(b, pat_wt(), k) {
        None => {},
        Some(sb) => {
            lemma_find_shift(a, b, pat_gt(), sb);
            match find_from(b, pat_gt(), sb) {
                None => {},
                Some(gb) => {
                    if k <= sb && sb < gb && gb < b.len() {
                        assert(s[a.len() + gb - 1] == b[gb - 1]);
                        if b[gb - 1] == '/' {
                            lemma_wt_texts_shift(a, b, gb + 1);
                        } else {
                            lemma_find_shift(a, b, pat_wt_end(), gb + 1);
                            match find_from(b, pat_wt_end(), gb + 1) {
                                None => {},
                                Some(eb) => {
                                    if gb + 1 <= eb && eb + 6 <= b.len() {
                                        assert(s.subrange(a.len() + gb + 1, a.len() + eb) =~= b.subrange(
                                            gb + 1,
                                            eb,
                                        ));
                                        lemma_wt_texts_shift(a, b, eb + 6);
                                    }
                                },
                            }
                        }
                    }
                },
            }
        },
    }
}

/// An occurrence of `>` is the character itself.
proof fn lemma_gt_char(s: Seq<char>, j: int)
    ensures
        matches_at(s, j, pat_gt()) == (0 <= j < s.len() && s[j] == '>'),
{
    if 0 <= j < s.len() {
        let w = s.subrange(j, j + 1);
        assert(w[0] == s[j]);
        if s[j] == '>' {
            assert(w =~= pat_gt());
        }
        if w == pat_gt() {
            assert(w[0] == pat_gt()[0]);
        }
    }
}

/// An occurrence of `</w:t>` starts with `<`.
proof fn lemma_end_starts_lt(s: Seq<char>, j: int)
    ensures
        matches_at(s, j, pat_wt_end()) ==> s[j] == '<',
{
    if matches_at(s, j, pat_wt_end()) {
        assert(s.subrange(j, j + 6)[0] == s[j]);
    }
}

/// Where the rewritten text is `pre` (the original from `r` to `start`, with no
/// `<w:t` in it) and then a text element, the scan finds that element first.
proof fn lemma_first_wt_at(o: Seq<char>, pre: Seq<char>, rest: Seq<char>, s: Seq<char>, r: int, start: int)
    requires
        0 <= r <= start,
        start + 4 <= s.len(),
        o == pre + rest,
        pre == s.subrange(r, start),
        forall|j: int| r <= j < start ==> !#[trigger] matches_at(s, j, pat_wt()),
        rest.len() >= 4,
        rest.subrange(0, 4) == pat_wt(),
    ensures
        find_from(o, pat_wt(), 0) == Some(pre.len() as int),
{
    assert forall|j: int| 0 <= j < pre.len() implies !#[trigger] matches_at(o, j, pat_wt()) by {
        if j + 4 <= pre.len() {
            lemma_matches_prefix(pre, rest, pat_wt(), j);
            assert(pre.subrange(j, j + 4) =~= s.subrange(r + j, r + j + 4));
            assert(!matches_at(s, r + j, pat_wt()));
        } else {
            let k = pre.len() - j;
            assert(o[pre.len() as int] == rest[0]);
            assert(rest[0] == rest.subrange(0, 4)[0]);
            assert(o.subrange(j, j + 4)[k] == o[pre.len() as int]);
            assert(pat_wt()[k] != '<');
        }
    }
    lemma_matches_shift(pre, rest, pat_wt(), 0);
    assert(rest.subrange(0, 4) =~= pat_wt());
    lemma_find_from_is(o, pat_wt(), 0, pre.len() as int);
}

/// A tag that closes itself, copied as it was, is skipped by the scan.
proof fn lemma_self_closing_step(s: Seq<char>, r: int, start: int, gt: int, o2: Seq<char>)
    requires
        0 <= r <= start,
        start + 4 <= gt < s.len(),
        find_from(s, pat_wt(), r) == Some(start),
        find_from(s, pat_gt(), start) == Some(gt),
        s[gt - 1] == '/',
    ensures
        wt_texts_from(s.subrange(r, start) + s.subrange(start, gt + 1) + o2, 0) == wt_texts_from(o2, 0),
{
    let pre = s.subrange(r, start);
    let x = s.subrange(start, gt + 1);
    let a = pre + x;
    let o = a + o2;
    lemma_find_from_bounds(s, pat_wt(), r);
    lemma_find_from_bounds(s, pat_gt(), start);
    assert(o == pre + (x + o2));
    assert((x + o2).subrange(0, 4) =~= s.subrange(start, start + 4));
    lemma_first_wt_at(o, pre, x + o2, s, r, start);
    let g2 = pre.len() + (gt - start);
    assert forall|j: int| pre.len() <= j < g2 implies !#[trigger] matches_at(o, j, pat_gt()) by {
        lemma_gt_char(o, j);
        lemma_gt_char(s, start + (j - pre.len()));
        assert(o[j] == s[start + (j - pre.len())]);
    }
    lemma_gt_char(o, g2);
    lemma_gt_char(s, gt);
    assert(o[g2] == s[gt]);
    lemma_find_from_is(o, pat_gt(), pre.len() as int, g2);
    assert(o[g2 - 1] == s[gt - 1]);
    assert(g2 + 1 == a.len());
    lemma_wt_texts_shift(a, o2, 0);
}

/// A text element `head`, `text`, `</w:t>` written after `pre` (the original from
/// `r` to `start`, with no `<w:t` in it) reads as `text` unescaped.
proof fn lemma_element_step(s: Seq<char>, r: int, start: int, head: Seq<char>, text: Seq<char>, o2: Seq<char>)
    requires
        0 <= r <= start,
        start + 4 <= s.len(),
        forall|j: int| r <= j < start ==> !#[trigger] matches_at(s, j, pat_wt()),
        head.len() >= 5,
        head.subrange(0, 4) == pat_wt(),
        head[head.len() - 1] == '>',
        head[head.len() - 2] != '/',
        forall|k: int| 0 <= k < head.len() - 1 ==> head[k] != '>',
        forall|k: int| 0 <= k < text.len() ==> text[k] != '<',
    ensures
        wt_texts_from(s.subrange(r, start) + (head + text + pat_wt_end()) + o2, 0) == xml_unescape_spec(text)
            + wt_texts_from(o2, 0),
{
    let pre = s.subrange(r, start);
    let el = head + text + pat_wt_end();
    let a = pre + el;
    let o = a + o2;
    assert(o == pre + (el + o2));
    assert((el + o2).subrange(0, 4) =~= head.subrange(0, 4));
    lemma_first_wt_at(o, pre, el + o2, s, r, start);
    let p0 = pre.len() as int;
    let g2 = p0 + head.len() - 1;
    assert forall|j: int| p0 <= j < g2 implies !#[trigger] matches_at(o, j, pat_gt()) by {
        lemma_gt_char(o, j);
        assert(o[j] == head[j - p0]);
    }
    lemma_gt_char(o, g2);
    assert(o[g2] == head[head.len() - 1]);
    lemma_find_from_is(o, pat_gt(), p0, g2);
    assert(o[g2 - 1] == head[head.len() - 2]);
    let t0 = g2 + 1;
    let e2 = t0 + text.len();
    assert forall|j: int| t0 <= j < e2 implies !#[trigger] matches_at(o, j, pat_wt_end()) by {
        lemma_end_starts_lt(o, j);
        assert(o[j] == text[j - t0]);
    }
    assert(o.subrange(e2, e2 + 6) =~= pat_wt_end());
    lemma_find_from_is(o, pat_wt_end(), t0, e2);
    assert(o.subrange(t0, e2) =~= text);
    assert(e2 + 6 == a.len());
    lemma_wt_texts_shift(a, o2, 0);
}

/// Read back, a rewritten run of paragraph XML holds `esc` unescaped where the
/// first text element was (when `first`), and nothing else.
proof fn lemma_rewrite_reads_back(s: Seq<char>, r: int, esc: Seq<char>, first: bool)
    requires
        0 <= r <= s.len(),
        wt_well_formed(s, r),
        forall|k: int| 0 <= k < esc.len() ==> esc[k] != '<',
    ensures
        wt_texts_from(rewrite_from(s, r, esc, first), 0) == (if first && has_text_element(s, r) {
            xml_unescape_spec(esc)
        } else {
            Seq::<char>::empty()
        }),
    decreases s.len() - r,
{
    lemma_find_from_bounds(s, pat_wt(), r);
    match find_from(s, pat_wt(), r) {
        None => {
            let b = s.subrange(r, s.len() as int);
            assert(s =~= s.subrange(0, r) + b);
            lemma_find_shift(s.subrange(0, r), b, pat_wt(), 0);
        },
        Some(start) => {
            lemma_gt_after_start(s, start);
            let gt = find_from(s, pat_gt(), start)->Some_0;
            let pre = s.subrange(r, start);
            if s[gt - 1] == '/' {
                lemma_rewrite_reads_back(s, gt + 1, esc, first);
                lemma_self_closing_step(s, r, start, gt, rewrite_from(s, gt + 1, esc, first));
            } else {
                let end = find_from(s, pat_wt_end(), gt + 1)->Some_0;
                lemma_rewrite_reads_back(s, end + 6, esc, false);
                let o2 = rewrite_from(s, end + 6, esc, false);
                reveal_strlit("<w:t xml:space=\"preserve\">");
                reveal_strlit("</w:t>");
                reveal_strlit("<w:t></w:t>");
                assert("</w:t>"@ =~= pat_wt_end());
                if first {
                    let head = "<w:t xml:space=\"preserve\">"@;
                    assert(head.subrange(0, 4) =~= pat_wt());
                    lemma_element_step(s, r, start, head, esc, o2);
                    assert(rewrite_from(s, r, esc, first) == pre + (head + esc + pat_wt_end()) + o2);
                } else {
                    let head = seq!['<', 'w', ':', 't', '>'];
                    assert(head.subrange(0, 4) =~= pat_wt());
                    lemma_element_step(s, r, start, head, Seq::empty(), o2);
                    assert("<w:t></w:t>"@ =~= head + Seq::<char>::empty() + pat_wt_end());
                    assert(xml_unescape_spec(Seq::<char>::empty()) =~= Seq::<char>::empty()) by {
                        lemma_unescape_empty();
                    }
                }
            }
        },
    }
}

/// Nothing unescapes to nothing.
proof fn lemma_unescape_empty()
    ensures
        xml_unescape_spec(Seq::<char>::empty()) == Seq::<char>::empty(),
{
    reveal_strlit("&lt;");
    reveal_strlit("&gt;");
    reveal_strlit("&amp;");
    reveal_strlit("&quot;");
    let e = Seq::<char>::empty();
    crate::text_facts::lemma_replace_absent(e, "&lt;"@, "<"@);
    crate::text_facts::lemma_replace_absent(e, "&gt;"@, ">"@);
    crate::text_facts::lemma_replace_absent(e, "&amp;"@, "&"@);
    crate::text_facts::lemma_replace_absent(e, "&quot;"@, "\""@);
}

/// Law: a paragraph whose text is set to `t` reads back as `t`, where the
/// paragraph has whole text elements and at least one that holds text, and `t`
/// does not itself spell `&quot;`. This is what filling and normalizing rely on
/// when a placeholder is split over several runs.
pub proof fn law_rewritten_paragraph_reads_back(p: Seq<char>, t: Seq<char>)
    requires
        wt_well_formed(p, 0),
        has_text_element(p, 0),
        !contains(t, "&quot;"@),
    ensures
        wt_texts(rewrite_paragraph_spec(p, t)) == t,
{
    if wt_texts(p) != t {
        assert(contains(p, pat_wt()));
        lemma_escaped_has_no_lt(t);
        lemma_rewrite_reads_back(p, 0, xml_escape_spec(t), true);
        law_escape_round_trip(t);
    }
}


/// Rewriting from past a prefix rewrites the rest alone.
proof fn lemma_rewrite_from_shift(a: Seq<char>, b: Seq<char>, k: int, esc: Seq<char>, first: bool)
    requires
        0 <= k,
    ensures
        rewrite_from(a + b, a.len() + k, esc, first) == rewrite_from(b, k, esc, first),
    decreases b.len() - k,
{
    let s = a + b;
    let r = a.len() + k;
    if k > b.len() {
        return;
    }
    assert(s.subrange(r, s.len() as int) =~= b.subrange(k, b.len() as int));
    lemma_find_shift(a, b, pat_wt(), k);
    lemma_find_from_bounds(b, pat_wt(), k);
    match find_from(b, pat_wt(), k) {
        None => {},
        Some(sb) => {
            assert(s.subrange(r, a.len() + sb) =~= b.subrange(k, sb));
            lemma_find_shift(a, b, pat_gt(), sb);
            match find_from(b, pat_gt(), sb) {
                None => {},
                Some(gb) => {
                    if sb < gb && gb < b.len() {
                        assert(s[a.len() + gb - 1] == b[gb - 1]);
                        if b[gb - 1] == '/' {
                            assert(s.subrange(a.len() + sb, a.len() + gb + 1) =~= b.subrange(sb, gb + 1));
                            lemma_rewrite_from_shift(a, b, gb + 1, esc, first);
                        } else {
                            lemma_find_shift(a, b, pat_wt_end(), gb + 1);
                            match find_from(b, pat_wt_end(), gb + 1) {
                                None => {},
                                Some(eb) => {
                                    if gb + 1 <= eb && eb + 6 <= b.len() {
                                        lemma_rewrite_from_shift(a, b, eb + 6, esc, false);
                                    }
                                },
                            }
                        }
                    }
                },
            }
        },
    }
}

/// Whole text elements past a prefix are whole text elements of the rest.
proof fn lemma_well_formed_shift(a: Seq<char>, b: Seq<char>, k: int)
    requires
        0 <= k,
    ensures
        wt_well_formed(a + b, a.len() + k) == wt_well_formed(b, k),
    decreases b.len() - k,
{
    let s = a + b;
    if k > b.len() {
        return;
    }
    lemma_find_shift(a, b, pat_wt(), k);
    lemma_find_from_bounds(b, pat_wt(), k);
    match find_from(b, pat_wt(), k) {
        None => {},
        Some(sb) => {
            lemma_find_shift(a, b, pat_gt(), sb);
            match find_from(b, pat_gt(), sb) {
                None => {},
                Some(gb) => {
                    if k <= sb && sb < gb && gb < b.len() {
                        assert(s[a.len() + gb - 1] == b[gb - 1]);
                        if b[gb - 1] == '/' {
                            lemma_well_formed_shift(a, b, gb + 1);
                        } else {
                            lemma_find_shift(a, b, pat_wt_end(), gb + 1);
                            match find_from(b, pat_wt_end(), gb + 1) {
                                None => {},
                                Some(eb) => {
                                    if gb + 1 <= eb && eb + 6 <= b.len() {
                                        lemma_well_formed_shift(a, b, eb + 6);
                                    }
                                },
                            }
                        }
                    }
                },
            }
        },
    }
}

/// A text element holding `x`, escaped, as a plain run has it.
pub open spec fn plain_element(x: Seq<char>) -> Seq<char> {
    "<w:t>"@ + xml_escape_spec(x) + "</w:t>"@
}

/// Text before a text element in which no `<w:t` starts.
pub open spec fn no_wt_lead(pre: Seq<char>) -> bool {
    forall|j: int| 0 <= j < pre.len() && #[trigger] pre[j] == '<' ==> j + 3 < pre.len() && pre[j + 3] != 't'
}

/// One step of the scan over `pre`, a plain text element, and `c`: the element
/// is rewritten, and the scan goes on in `c`.
proof fn lemma_plain_step(pre: Seq<char>, x: Seq<char>, c: Seq<char>, esc: Seq<char>, first: bool)
    requires
        no_wt_lead(pre),
    ensures
        rewrite_from(pre + plain_element(x) + c, 0, esc, first) == pre + (if first {
            "<w:t xml:space=\"preserve\">"@ + esc + "</w:t>"@
        } else {
            "<w:t></w:t>"@
        }) + rewrite_from(c, 0, esc, false),
        wt_well_formed(pre + plain_element(x) + c, 0) == wt_well_formed(c, 0),
        has_text_element(pre + plain_element(x) + c, 0),
        find_from(pre + plain_element(x) + c, pat_wt(), 0) == Some(pre.len() as int),
{
    reveal_strlit("<w:t>");
    reveal_strlit("</w:t>");
    let ex = xml_escape_spec(x);
    lemma_escaped_has_no_lt(x);
    let w = plain_element(x);
    let a = pre + w;
    let b = a + c;
    assert(pre + plain_element(x) + c == b);
    let l = pre.len() as int;
    let q = ex.len() as int;
    assert(w.len() == 11 + q);
    assert forall|j: int| 0 <= j < l implies !#[trigger] matches_at(b, j, pat_wt()) by {
        if matches_at(b, j, pat_wt()) {
            assert(b.subrange(j, j + 4)[0] == b[j]);
            assert(b[j] == pre[j]);
            assert(b.subrange(j, j + 4)[3] == b[j + 3]);
            assert(b[j + 3] == pre[j + 3]);
        }
    }
    assert(b.subrange(l, l + 4) =~= pat_wt());
    lemma_find_from_is(b, pat_wt(), 0, l);
    assert forall|j: int| l <= j < l + 4 implies !#[trigger] matches_at(b, j, pat_gt()) by {
        lemma_gt_char(b, j);
        assert(b[j] == w[j - l]);
    }
    lemma_gt_char(b, l + 4);
    assert(b[l + 4] == w[4]);
    lemma_find_from_is(b, pat_gt(), l, l + 4);
    assert(b[l + 3] == w[3]);
    let end = l + 5 + q;
    assert forall|j: int| l + 5 <= j < end implies !#[trigger] matches_at(b, j, pat_wt_end()) by {
        lemma_end_starts_lt(b, j);
        assert(b[j] == ex[j - l - 5]);
    }
    assert(b.subrange(end, end + 6) =~= pat_wt_end());
    lemma_find_from_is(b, pat_wt_end(), l + 5, end);
    assert(end + 6 == a.len());
    assert(b.subrange(0, l) =~= pre);
    lemma_rewrite_from_shift(a, c, 0, esc, false);
    lemma_well_formed_shift(a, c, 0);
}

/// A run holding `x` as plain text.
pub open spec fn plain_run(x: Seq<char>) -> Seq<char> {
    "<w:r>"@ + plain_element(x) + "</w:r>"@
}

/// Plain runs, one for each text, in order.
pub open spec fn plain_runs(xs: Seq<Seq<char>>) -> Seq<char>
    decreases xs.len(),
{
    if xs.len() == 0 {
        Seq::empty()
    } else {
        plain_run(xs[0]) + plain_runs(xs.drop_first())
    }
}

/// A paragraph of plain runs holding the texts `xs`.
pub open spec fn plain_paragraph(xs: Seq<Seq<char>>) -> Seq<char> {
    "<w:p>"@ + plain_runs(xs) + "</w:p>"@
}

/// `k` runs with an empty text element each.
pub open spec fn empty_runs(k: nat) -> Seq<char>
    decreases k,
{
    if k == 0 {
        Seq::empty()
    } else {
        "<w:r><w:t></w:t></w:r>"@ + empty_runs((k - 1) as nat)
    }
}

/// A paragraph of `n` plain runs with its text set to `t`: the first run holds
/// all of it, the others are emptied.
pub open spec fn rewritten_plain_paragraph(n: nat, t: Seq<char>) -> Seq<char> {
    "<w:p>"@ + "<w:r><w:t xml:space=\"preserve\">"@ + xml_escape_spec(t) + "</w:t></w:r>"@ + empty_runs(
        (n - 1) as nat,
    ) + "</w:p>"@
}

/// What follows the text element of a plain run in a plain paragraph, where
/// the runs `xs` come after it.
spec fn run_tail(xs: Seq<Seq<char>>) -> Seq<char>
    decreases xs.len(),
{
    if xs.len() == 0 {
        "</w:r></w:p>"@
    } else {
        "</w:r><w:r>"@ + plain_element(xs[0]) + run_tail(xs.drop_first())
    }
}

/// What the scan writes for `run_tail` of `k` runs after the first.
spec fn emptied_tail(k: nat) -> Seq<char>
    decreases k,
{
    if k == 0 {
        "</w:r></w:p>"@
    } else {
        "</w:r><w:r>"@ + "<w:t></w:t>"@ + emptied_tail((k - 1) as nat)
    }
}

proof fn lemma_leads()
    ensures
        no_wt_lead("<w:p><w:r>"@),
        no_wt_lead("</w:r><w:r>"@),
{
    reveal_strlit("<w:p><w:r>");
    reveal_strlit("</w:r><w:r>");
}

/// A plain paragraph is its first text element between the opening of the
/// paragraph and run and the rest of the runs.
proof fn lemma_plain_shape(xs: Seq<Seq<char>>)
    requires
        xs.len() >= 1,
    ensures
        plain_runs(xs) + "</w:p>"@ == "<w:r>"@ + plain_element(xs[0]) + run_tail(xs.drop_first()),
    decreases xs.len(),
{
    reveal_strlit("</w:r></w:p>");
    reveal_strlit("</w:r><w:r>");
    reveal_strlit("</w:r>");
    reveal_strlit("</w:p>");
    reveal_strlit("<w:r>");
    let rest = xs.drop_first();
    if rest.len() == 0 {
        assert(plain_runs(rest) == Seq::<char>::empty());
        assert("</w:r></w:p>"@ =~= "</w:r>"@ + "</w:p>"@);
        assert(plain_runs(xs) + "</w:p>"@ =~= "<w:r>"@ + plain_element(xs[0]) + run_tail(rest));
    } else {
        lemma_plain_shape(rest);
        assert(rest[0] == xs[1]);
        assert("</w:r><w:r>"@ =~= "</w:r>"@ + "<w:r>"@);
        assert(plain_runs(xs) + "</w:p>"@ =~= "<w:r>"@ + plain_element(xs[0]) + "</w:r>"@ + (
        plain_runs(rest) + "</w:p>"@));
        assert(plain_runs(xs) + "</w:p>"@ =~= "<w:r>"@ + plain_element(xs[0]) + run_tail(rest));
    }
}

/// The scan over the rest of a plain paragraph empties every later element and
/// meets only whole ones.
proof fn lemma_tail_rewrite(xs: Seq<Seq<char>>, esc: Seq<char>)
    ensures
        rewrite_from(run_tail(xs), 0, esc, false) == emptied_tail(xs.len()),
        wt_well_formed(run_tail(xs), 0),
    decreases xs.len(),
{
    if xs.len() == 0 {
        let t = "</w:r></w:p>"@;
        reveal_strlit("</w:r></w:p>");
        assert forall|j: int| 0 <= j implies !#[trigger] matches_at(t, j, pat_wt()) by {
            if matches_at(t, j, pat_wt()) {
                assert(t.subrange(j, j + 4)[0] == t[j]);
                assert(t.subrange(j, j + 4)[1] == t[j + 1]);
            }
        }
        lemma_find_from_none(t, pat_wt(), 0);
        assert(t.subrange(0, t.len() as int) =~= t);
    } else {
        lemma_leads();
        let rest = xs.drop_first();
        lemma_tail_rewrite(rest, esc);
        lemma_plain_step("</w:r><w:r>"@, xs[0], run_tail(rest), esc, false);
    }
}

/// The emptied rest of a plain paragraph, as runs.
proof fn lemma_emptied_tail(k: nat)
    ensures
        emptied_tail(k) == "</w:r>"@ + empty_runs(k) + "</w:p>"@,
    decreases k,
{
    reveal_strlit("</w:r></w:p>");
    reveal_strlit("</w:r>");
    reveal_strlit("</w:p>");
    if k == 0 {
        assert(emptied_tail(k) =~= "</w:r>"@ + empty_runs(k) + "</w:p>"@);
    } else {
        lemma_emptied_tail((k - 1) as nat);
        reveal_strlit("</w:r><w:r>");
        reveal_strlit("<w:t></w:t>");
        reveal_strlit("<w:r><w:t></w:t></w:r>");
        assert("</w:r><w:r>"@ + "<w:t></w:t>"@ + "</w:r>"@ =~= "</w:r>"@ + "<w:r><w:t></w:t></w:r>"@);
        assert(emptied_tail(k) =~= "</w:r>"@ + empty_runs(k) + "</w:p>"@);
    }
}

/// The scan over a plain paragraph: whole text elements, the first holding
/// text; rewritten, the first holds `esc` and the others are emptied.
proof fn lemma_plain_scan(xs: Seq<Seq<char>>, esc: Seq<char>)
    requires
        xs.len() >= 1,
    ensures
        wt_well_formed(plain_paragraph(xs), 0),
        has_text_element(plain_paragraph(xs), 0),
        contains(plain_paragraph(xs), pat_wt()),
        rewrite_from(plain_paragraph(xs), 0, esc, true) == "<w:p>"@
            + "<w:r><w:t xml:space=\"preserve\">"@ + esc + "</w:t></w:r>"@ + empty_runs(
            (xs.len() - 1) as nat,
        ) + "</w:p>"@,
{
    let p = plain_paragraph(xs);
    let l0 = "<w:p><w:r>"@;
    let rest = xs.drop_first();
    reveal_strlit("<w:p><w:r>");
    reveal_strlit("<w:p>");
    reveal_strlit("<w:r>");
    lemma_plain_shape(xs);
    assert(l0 =~= "<w:p>"@ + "<w:r>"@);
    assert(p =~= "<w:p>"@ + (plain_runs(xs) + "</w:p>"@));
    assert(p =~= l0 + plain_element(xs[0]) + run_tail(rest));
    lemma_leads();
    lemma_tail_rewrite(rest, esc);
    lemma_plain_step(l0, xs[0], run_tail(rest), esc, true);
    lemma_emptied_tail(rest.len());
    reveal_strlit("<w:t xml:space=\"preserve\">");
    reveal_strlit("<w:r><w:t xml:space=\"preserve\">");
    reveal_strlit("</w:t>");
    reveal_strlit("</w:r>");
    reveal_strlit("</w:t></w:r>");
    assert(rewrite_from(p, 0, esc, true) =~= "<w:p>"@ + "<w:r><w:t xml:space=\"preserve\">"@ + esc
        + "</w:t></w:r>"@ + empty_runs((xs.len() - 1) as nat) + "</w:p>"@);
}

/// Law: setting the text of a paragraph of plain runs (each a `<w:t>` holding
/// its text escaped) keeps every run: the first holds the whole new text,
/// escaped, and the others are emptied; read back, the paragraph holds the
/// new text; and a paragraph already holding that text is left as it is. The
/// new text must not itself spell `&quot;`, which reads back as `"`.
pub proof fn law_plain_paragraph_rewrite(xs: Seq<Seq<char>>, t: Seq<char>)
    requires
        xs.len() >= 1,
        !contains(t, "&quot;"@),
    ensures
        wt_texts(rewrite_paragraph_spec(plain_paragraph(xs), t)) == t,
        t == wt_texts(plain_paragraph(xs)) ==> rewrite_paragraph_spec(plain_paragraph(xs), t)
            == plain_paragraph(xs),
        t != wt_texts(plain_paragraph(xs)) ==> rewrite_paragraph_spec(plain_paragraph(xs), t)
            == rewritten_plain_paragraph(xs.len(), t),
{
    lemma_plain_scan(xs, xml_escape_spec(t));
    law_rewritten_paragraph_reads_back(plain_paragraph(xs), t);
}

/// Law: a yes/no value is written as `да` when it is true and `нет` when it is
/// false, so the two never read alike.
pub proof fn law_bool_value_text(b: bool)
    ensures
        b ==> value_text_spec(FieldValue::Bool(b)) == "да"@,
        !b ==> value_text_spec(FieldValue::Bool(b)) == "нет"@,
        value_text_spec(FieldValue::Bool(true)) != value_text_spec(FieldValue::Bool(false)),
{
    reveal_strlit("да");
    reveal_strlit("нет");
    assert("да"@.len() != "нет"@.len());
}

/// Law: filling a paragraph that reads `pre` and then the placeholder of `k`
/// (no `{` in `pre`) with a yes/no value for `k` gives `pre` and then `да` for
/// true, `нет` for false.
pub proof fn law_bool_fill(pre: Seq<char>, k: Seq<char>, b: bool)
    requires
        forall|i: int| 0 <= i < pre.len() ==> pre[i] != '{',
    ensures
        fill_text(pre + placeholder(k), seq![(k, value_text_spec(FieldValue::Bool(b)))]) == pre + (if b {
            "да"@
        } else {
            "нет"@
        }),
{
    law_bool_value_text(b);
    let p = placeholder(k);
    let s = pre + p;
    let r = value_text_spec(FieldValue::Bool(b));
    let l = pre.len() as int;
    assert forall|j: int| 0 <= j < l implies !#[trigger] matches_at(s, j, p) by {
        if matches_at(s, j, p) {
            assert(s.subrange(j, j + p.len())[0] == s[j]);
            assert(s[j] == pre[j]);
            assert(p[0] == '{');
        }
    }
    assert(s.subrange(l, l + p.len()) =~= p);
    lemma_find_from_is(s, p, 0, l);
    assert(find(s, p) == Some(l));
    let rest = s.skip(l + p.len());
    assert(rest =~= Seq::<char>::empty());
    assert(find(rest, p) is None);
    assert(replace(rest, p, r) == rest);
    assert(s.take(l) =~= pre);
    assert(replace(s, p, r) == s.take(l) + r + replace(rest, p, r));
    assert(replace(s, p, r) =~= pre + r);
    assert(fill_text(s, seq![(k, r)]) == fill_text(replace(s, p, r), seq![(k, r)].drop_first()));
    let reps = seq![(k, r)];
    assert(reps.drop_first() =~= Seq::<(Seq<char>, Seq<char>)>::empty());
}

} // verus!
