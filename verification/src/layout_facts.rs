//! What turning a template body into HTML keeps: its placeholders.
use vstd::prelude::*;

use crate::escaping::{encode, escaped_char, escaped_text, lemma_escape_encodes};
use crate::layout::{
    block_cells_spec, block_html, blocks_html, html_escape_spec, is_html_spec, line_html,
    lines_spec, or_default, strip_cr, text_lines_html, to_html_spec, Block,
    Layout,
};
use crate::marks::placeholder;
use crate::model::{is_key_char, valid_key};
use crate::text::{
    contains, find, find_from, is_ws, lemma_find_from_bounds, matches_at, trim, trim_end, trim_start,
};
use crate::text_facts::{lemma_matches_prefix, lemma_matches_shift};

verus! {

/// An occurrence makes `contains` true.
proof fn lemma_contains_at(s: Seq<char>, i: int, w: Seq<char>)
    requires
        matches_at(s, i, w),
    ensures
        contains(s, w),
{
    lemma_find_from_bounds(s, w, 0);
}

/// What a part contains, the whole contains.
pub proof fn lemma_contains_concat(x: Seq<char>, a: Seq<char>, y: Seq<char>, w: Seq<char>)
    requires
        contains(a, w),
    ensures
        contains(x + a + y, w),
{
    lemma_find_from_bounds(a, w, 0);
    let i = find(a, w)->Some_0;
    lemma_matches_prefix(a, y, w, i);
    lemma_matches_shift(x, a + y, w, i);
    assert(x + a + y == x + (a + y));
    lemma_contains_at(x + a + y, x.len() + i, w);
}

/// Encoding a concatenation encodes each part.
proof fn lemma_encode_concat(a: Seq<char>, b: Seq<char>, f: spec_fn(char) -> Seq<char>)
    ensures
        encode(a + b, f) == encode(a, f) + encode(b, f),
    decreases a.len(),
{
    if a.len() == 0 {
        assert(a + b =~= b);
    } else {
        assert((a + b).drop_first() =~= a.drop_first() + b);
        assert((a + b)[0] == a[0]);
        lemma_encode_concat(a.drop_first(), b, f);
    }
}

/// A character that escaping leaves as it is.
pub open spec fn plain_char(c: char) -> bool {
    c != '&' && c != '<' && c != '>'
}

/// Escaping leaves text of plain characters as it is.
proof fn lemma_escape_plain(w: Seq<char>)
    requires
        forall|i: int| 0 <= i < w.len() ==> plain_char(#[trigger] w[i]),
    ensures
        escaped_text(w) == w,
    decreases w.len(),
{
    if w.len() > 0 {
        lemma_escape_plain(w.drop_first());
        assert(plain_char(w[0]));
        assert(seq![w[0]] + w.drop_first() =~= w);
    }
}

/// Escaping keeps an occurrence of text of plain characters.
proof fn lemma_escape_keeps(s: Seq<char>, w: Seq<char>)
    requires
        contains(s, w),
        forall|i: int| 0 <= i < w.len() ==> plain_char(#[trigger] w[i]),
    ensures
        contains(html_escape_spec(s), w),
{
    lemma_find_from_bounds(s, w, 0);
    let i = find(s, w)->Some_0;
    let a = s.take(i);
    let b = s.skip(i + w.len());
    assert(s.subrange(i, i + w.len()) == w);
    assert(s =~= a + w + b);
    let f = |c: char| escaped_char(c);
    lemma_escape_encodes(s);
    lemma_encode_concat(a + w, b, f);
    lemma_encode_concat(a, w, f);
    lemma_escape_plain(w);
    assert(escaped_text(w) == encode(w, f));
    assert(w.len() > 0 ==> matches_at(w, 0, w)) by {
        assert(w.subrange(0, w.len() as int) =~= w);
    }
    if w.len() == 0 {
        assert(matches_at(html_escape_spec(s), 0, w)) by {
            assert(html_escape_spec(s).subrange(0, 0) =~= w);
        }
        lemma_contains_at(html_escape_spec(s), 0, w);
    } else {
        lemma_contains_at(w, 0, w);
        lemma_contains_concat(encode(a, f), w, encode(b, f), w);
    }
}

/// Text with neither `\n` nor `\r`.
pub open spec fn one_line(w: Seq<char>) -> bool {
    forall|i: int| 0 <= i < w.len() ==> w[i] != '\n' && w[i] != '\r'
}

/// An occurrence of one-line text lies within one of the lines.
proof fn lemma_lines_keep(s: Seq<char>, w: Seq<char>)
    requires
        w.len() > 0,
        one_line(w),
        contains(s, w),
    ensures
        exists|k: int| 0 <= k < lines_spec(s).len() && contains(#[trigger] lines_spec(s)[k], w),
    decreases s.len(),
{
    lemma_find_from_bounds(s, w, 0);
    let j = find(s, w)->Some_0;
    lemma_find_from_bounds(s, seq!['\n'], 0);
    match find_from(s, seq!['\n'], 0) {
        None => {
            assert(lines_spec(s) == seq![s]);
            assert(lines_spec(s)[0] == s);
        },
        Some(i) => {
            let line = strip_cr(s.take(i));
            let rest = s.skip(i + 1);
            assert(lines_spec(s) == seq![line] + lines_spec(rest));
            assert(s[i] == '\n') by {
                assert(s.subrange(i, i + 1)[0] == s[i]);
            }
            if j + w.len() <= i {
                // Within the first line; a final `\r` is not part of `w`.
                let end = if s.take(i).len() > 0 && s.take(i).last() == '\r' {
                    i - 1
                } else {
                    i
                };
                if end == i - 1 && j + w.len() == i {
                    assert(w[w.len() - 1] == s.subrange(j, j + w.len())[w.len() - 1]);
                    assert(s[i - 1] == '\r');
                    assert(false);
                }
                assert(line =~= s.take(end));
                assert(line.subrange(j, j + w.len()) =~= s.subrange(j, j + w.len()));
                lemma_contains_at(line, j, w);
                assert((seq![line] + lines_spec(rest))[0] == line);
            } else if j > i {
                let j2 = j - (i + 1);
                assert(rest.subrange(j2, j2 + w.len()) =~= s.subrange(j, j + w.len()));
                lemma_contains_at(rest, j2, w);
                lemma_lines_keep(rest, w);
                let k = choose|k: int| 0 <= k < lines_spec(rest).len() && contains(#[trigger] lines_spec(rest)[k], w);
                assert((seq![line] + lines_spec(rest))[k + 1] == lines_spec(rest)[k]);
            } else {
                // The occurrence would hold the `\n` at `i`.
                assert(w[i - j] == s.subrange(j, j + w.len())[i - j]);
                assert(false);
            }
        },
    }
}

/// The paragraphs of lines hold what one line's paragraph holds.
proof fn lemma_text_lines_keep(lines: Seq<Seq<char>>, k: int, w: Seq<char>)
    requires
        0 <= k < lines.len(),
        contains(line_html(lines[k]), w),
    ensures
        contains(text_lines_html(lines), w),
    decreases lines.len(),
{
    if k == 0 {
        lemma_contains_concat(Seq::empty(), line_html(lines[0]), text_lines_html(lines.drop_first()), w);
        assert(Seq::<char>::empty() + line_html(lines[0]) + text_lines_html(lines.drop_first())
            =~= text_lines_html(lines));
    } else {
        assert(lines.drop_first()[k - 1] == lines[k]);
        lemma_text_lines_keep(lines.drop_first(), k - 1, w);
        lemma_contains_concat(line_html(lines[0]), text_lines_html(lines.drop_first()), Seq::empty(), w);
        assert(line_html(lines[0]) + text_lines_html(lines.drop_first()) + Seq::<char>::empty()
            =~= text_lines_html(lines));
    }
}

/// `trim_start` drops only white space.
proof fn lemma_trim_start_drops_ws(s: Seq<char>)
    ensures
        exists|k: int|
            0 <= k <= s.len() && trim_start(s) == s.skip(k) && forall|i: int| 0 <= i < k ==> is_ws(#[trigger] s[i]),
    decreases s.len(),
{
    if s.len() > 0 && is_ws(s[0]) {
        lemma_trim_start_drops_ws(s.drop_first());
        let k = choose|k: int|
            0 <= k <= s.drop_first().len() && trim_start(s.drop_first()) == s.drop_first().skip(k)
                && forall|i: int| 0 <= i < k ==> is_ws(#[trigger] s.drop_first()[i]);
        assert(s.drop_first().skip(k) =~= s.skip(k + 1));
        assert forall|i: int| 0 <= i < k + 1 implies is_ws(#[trigger] s[i]) by {
            if i > 0 {
                assert(s[i] == s.drop_first()[i - 1]);
            }
        }
    } else {
        assert(s.skip(0) =~= s);
    }
}

/// `trim_end` drops only white space.
proof fn lemma_trim_end_drops_ws(s: Seq<char>)
    ensures
        exists|k: int|
            0 <= k <= s.len() && trim_end(s) == s.take(k) && forall|i: int| k <= i < s.len() ==> is_ws(#[trigger] s[i]),
    decreases s.len(),
{
    if s.len() > 0 && is_ws(s.last()) {
        lemma_trim_end_drops_ws(s.drop_last());
        let k = choose|k: int|
            0 <= k <= s.drop_last().len() && trim_end(s.drop_last()) == s.drop_last().take(k)
                && forall|i: int| k <= i < s.drop_last().len() ==> is_ws(#[trigger] s.drop_last()[i]);
        assert(s.drop_last().take(k) =~= s.take(k));
        assert forall|i: int| k <= i < s.len() implies is_ws(#[trigger] s[i]) by {
            if i < s.len() - 1 {
                assert(s[i] == s.drop_last()[i]);
            }
        }
    } else {
        assert(s.take(s.len() as int) =~= s);
    }
}

/// Trimming keeps an occurrence that starts and ends with no white space.
proof fn lemma_trim_keeps(s: Seq<char>, w: Seq<char>)
    requires
        w.len() > 0,
        !is_ws(w[0]),
        !is_ws(w[w.len() - 1]),
        contains(s, w),
    ensures
        contains(trim(s), w),
{
    lemma_find_from_bounds(s, w, 0);
    let j = find(s, w)->Some_0;
    assert(s[j] == w[0]) by {
        assert(s.subrange(j, j + w.len())[0] == s[j]);
    }
    assert(s[j + w.len() - 1] == w[w.len() - 1]) by {
        assert(s.subrange(j, j + w.len())[w.len() - 1] == s[j + w.len() - 1]);
    }
    lemma_trim_start_drops_ws(s);
    let a = choose|k: int| 0 <= k <= s.len() && trim_start(s) == s.skip(k) && forall|i: int| 0 <= i < k ==> is_ws(#[trigger] s[i]);
    let u = s.skip(a);
    assert(a <= j) by {
        if j < a {
            assert(is_ws(s[j]));
        }
    }
    lemma_trim_end_drops_ws(u);
    let b = choose|k: int| 0 <= k <= u.len() && trim_end(u) == u.take(k) && forall|i: int| k <= i < u.len() ==> is_ws(#[trigger] u[i]);
    let jj = j - a;
    assert(jj + w.len() <= b) by {
        if jj + w.len() > b {
            assert(u[jj + w.len() - 1] == s[j + w.len() - 1]);
            assert(is_ws(u[jj + w.len() - 1]));
        }
    }
    let t = u.take(b);
    assert(t.subrange(jj, jj + w.len()) =~= s.subrange(j, j + w.len()));
    lemma_contains_at(t, jj, w);
}

/// A placeholder, made of key characters and braces, is one line of plain
/// characters that starts and ends with no white space.
proof fn lemma_placeholder_plain(key: Seq<char>)
    requires
        valid_key(key),
    ensures
        ({
            let w = placeholder(key);
            &&& w.len() > 0 && !is_ws(w[0]) && !is_ws(w[w.len() - 1])
            &&& one_line(w)
            &&& forall|i: int| 0 <= i < w.len() ==> plain_char(#[trigger] w[i])
        }),
{
    let w = placeholder(key);
    assert forall|i: int| 0 <= i < w.len() implies plain_char(#[trigger] w[i]) && w[i] != '\n' && w[i] != '\r' by {
        if 2 <= i < w.len() - 2 {
            assert(w[i] == key[i - 2]);
            assert(is_key_char(key[i - 2]));
        }
    }
}

/// The HTML of blocks holds what any text part of any block holds.
proof fn lemma_blocks_keep(bs: Seq<Block>, k: int, c: int, w: Seq<char>)
    requires
        0 <= k < bs.len(),
        0 <= c < block_cells_spec(bs[k]).len(),
        contains(block_cells_spec(bs[k])[c], w),
    ensures
        contains(blocks_html(bs), w),
    decreases bs.len(),
{
    if k == 0 {
        let b = bs[0];
        let part = block_cells_spec(b)[c];
        if b.kind@ == "header"@ {
            if c == 0 {
                assert(part == or_default(b.left, Seq::empty()));
            } else {
                assert(part == or_default(b.right, Seq::empty()));
            }
        } else {
            assert(part == or_default(b.html, Seq::empty()));
        }
        lemma_block_part_shown(b, c, w);
        lemma_contains_concat(Seq::empty(), block_html(b), blocks_html(bs.drop_first()), w);
        assert(Seq::<char>::empty() + block_html(b) + blocks_html(bs.drop_first()) =~= blocks_html(bs));
    } else {
        assert(bs.drop_first()[k - 1] == bs[k]);
        lemma_blocks_keep(bs.drop_first(), k - 1, c, w);
        lemma_contains_concat(block_html(bs[0]), blocks_html(bs.drop_first()), Seq::empty(), w);
        assert(block_html(bs[0]) + blocks_html(bs.drop_first()) + Seq::<char>::empty() =~= blocks_html(bs));
    }
}

/// A block's HTML holds what its text parts hold.
proof fn lemma_block_part_shown(b: Block, c: int, w: Seq<char>)
    requires
        0 <= c < block_cells_spec(b).len(),
        contains(block_cells_spec(b)[c], w),
    ensures
        contains(block_html(b), w),
{
    let h = block_html(b);
    if b.kind@ == "header"@ {
        let head = "<table class=\"zed-header\" style=\""@ + crate::layout::block_style(b)
            + "width:100%;border:none;\"><tr><td style=\"border:none;width:50%;vertical-align:top;\">"@;
        let left = or_default(b.left, Seq::empty());
        let mid = "</td><td style=\"border:none;width:50%;vertical-align:top;text-align:right;\">"@;
        let right = or_default(b.right, Seq::empty());
        let tail = "</td></tr></table>"@;
        if c == 0 {
            lemma_contains_concat(head, left, mid + right + tail, w);
            assert(head + left + (mid + right + tail) =~= h);
        } else {
            lemma_contains_concat(head + left + mid, right, tail, w);
            assert(head + left + mid + right + tail =~= h);
        }
    } else {
        let head = "<p style=\""@ + crate::layout::block_style(b) + "\">"@;
        let body = or_default(b.html, "&nbsp;"@);
        if b.html is None {
            lemma_find_from_bounds(block_cells_spec(b)[c], w, 0);
            assert(block_cells_spec(b)[c] == Seq::<char>::empty());
        }
        lemma_contains_concat(head, body, "</p>"@, w);
        assert(head + body + "</p>"@ =~= h);
    }
}

/// Whether the body is rendered from the blocks of its layout.
pub open spec fn renders_layout(parsed: Option<Layout>) -> bool {
    parsed is Some && parsed->Some_0.v >= 1
}

/// Law: turning a body into HTML keeps its placeholders: every `{{key}}` in a
/// text part of a layout's block, and every `{{key}}` of a body that is not a
/// layout, is still in the HTML.
pub proof fn law_to_html_keeps_placeholders(body: Seq<char>, parsed: Option<Layout>, key: Seq<char>)
    requires
        valid_key(key),
    ensures
        renders_layout(parsed) && trim(body).len() > 0 ==> forall|k: int, c: int|
            0 <= k < parsed->Some_0.blocks@.len() && 0 <= c < block_cells_spec(
                parsed->Some_0.blocks@[k],
            ).len() && contains(
                #[trigger] block_cells_spec(parsed->Some_0.blocks@[k])[c],
                placeholder(key),
            ) ==> contains(to_html_spec(body, parsed), placeholder(key)),
        !renders_layout(parsed) && contains(body, placeholder(key)) ==> contains(
            to_html_spec(body, parsed),
            placeholder(key),
        ),
{
    let w = placeholder(key);
    lemma_placeholder_plain(key);
    if let Some(l) = parsed {
        if l.v >= 1 {
            assert forall|k: int, c: int|
                0 <= k < l.blocks@.len() && 0 <= c < block_cells_spec(l.blocks@[k]).len() && contains(
                    #[trigger] block_cells_spec(l.blocks@[k])[c],
                    w,
                ) && trim(body).len() > 0 implies contains(to_html_spec(body, parsed), w) by {
                lemma_blocks_keep(l.blocks@, k, c, w);
                lemma_contains_concat("<div class=\"zed-doc\">"@, blocks_html(l.blocks@), "</div>"@, w);
            }
        }
    }
    if !renders_layout(parsed) && contains(body, w) {
        lemma_trim_keeps(body, w);
        let t = trim(body);
        assert(t.len() > 0) by {
            lemma_find_from_bounds(t, w, 0);
        }
        if !is_html_spec(t) {
            lemma_lines_keep(body, w);
            let lines = lines_spec(body);
            let k = choose|k: int| 0 <= k < lines.len() && contains(#[trigger] lines[k], w);
            let line = lines[k];
            assert(line.len() > 0) by {
                lemma_find_from_bounds(line, w, 0);
            }
            lemma_escape_keeps(line, w);
            lemma_contains_concat("<p>"@, html_escape_spec(line), "</p>"@, w);
            lemma_text_lines_keep(lines, k, w);
        }
    }
}

} // verus!
