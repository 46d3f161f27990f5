//! What XML escaping keeps: escaped text holds no `<`, and unescaping gives the
//! text back (where it does not itself spell `&quot;`).
use vstd::prelude::*;

use crate::paragraphs::{xml_escape_spec, xml_unescape_spec};
use crate::text::{contains, lemma_find_from_bounds, matches_at, replace};
use crate::text_facts::{lemma_replace_absent, lemma_replace_concat, no_straddle};

verus! {

/// Each character of `t` written as `f` writes it.
pub open spec fn encode(t: Seq<char>, f: spec_fn(char) -> Seq<char>) -> Seq<char>
    decreases t.len(),
{
    if t.len() == 0 {
        Seq::empty()
    } else {
        f(t[0]) + encode(t.drop_first(), f)
    }
}

pub open spec fn amp_code() -> Seq<char> {
    seq!['&', 'a', 'm', 'p', ';']
}

pub open spec fn lt_code() -> Seq<char> {
    seq!['&', 'l', 't', ';']
}

pub open spec fn gt_code() -> Seq<char> {
    seq!['&', 'g', 't', ';']
}

/// A character as XML escaping writes it.
pub open spec fn escaped_char(c: char) -> Seq<char> {
    if c == '&' {
        amp_code()
    } else if c == '<' {
        lt_code()
    } else if c == '>' {
        gt_code()
    } else {
        seq![c]
    }
}

/// Text with each character written as XML escaping writes it.
pub open spec fn escaped_text(t: Seq<char>) -> Seq<char> {
    encode(t, |c: char| escaped_char(c))
}

/// A character as it stands once `&lt;` is read back.
spec fn stage_lt(c: char) -> Seq<char> {
    if c == '&' {
        amp_code()
    } else if c == '>' {
        gt_code()
    } else {
        seq![c]
    }
}

/// A character as it stands once `&gt;` is read back too.
spec fn stage_gt(c: char) -> Seq<char> {
    if c == '&' {
        amp_code()
    } else {
        seq![c]
    }
}

/// `c` replaced by `r`, any other character kept.
spec fn swap(c: char, r: Seq<char>) -> spec_fn(char) -> Seq<char> {
    |x: char|
        if x == c {
            r
        } else {
            seq![x]
        }
}

/// Replacing in an encoded text replaces in each character's code, where no
/// occurrence runs from one code into what follows.
proof fn lemma_replace_encoded(
    t: Seq<char>,
    f: spec_fn(char) -> Seq<char>,
    g: spec_fn(char) -> Seq<char>,
    p: Seq<char>,
    r: Seq<char>,
)
    requires
        p.len() > 0,
        forall|c: char, b: Seq<char>| #[trigger] no_straddle(f(c), b, p),
        forall|c: char| #[trigger] replace(f(c), p, r) == g(c),
    ensures
        replace(encode(t, f), p, r) == encode(t, g),
    decreases t.len(),
{
    if t.len() == 0 {
        lemma_replace_absent(Seq::<char>::empty(), p, r);
    } else {
        let rest = encode(t.drop_first(), f);
        assert(no_straddle(f(t[0]), rest, p));
        lemma_replace_concat(f(t[0]), rest, p, r);
        lemma_replace_encoded(t.drop_first(), f, g, p, r);
    }
}

/// A one-character pattern never runs across a seam.
proof fn lemma_single_no_straddle(a: Seq<char>, b: Seq<char>, c: char)
    ensures
        no_straddle(a, b, seq![c]),
{
}

/// Replacing one character is writing each character as itself or `r`.
proof fn lemma_replace_char(t: Seq<char>, c: char, r: Seq<char>)
    ensures
        replace(t, seq![c], r) == encode(t, swap(c, r)),
{
    assert forall|x: char, b: Seq<char>| #[trigger] no_straddle(seq![x], b, seq![c]) by {
        lemma_single_no_straddle(seq![x], b, c);
    }
    assert forall|x: char| #[trigger] replace(seq![x], seq![c], r) == swap(c, r)(x) by {
        lemma_find_from_bounds(seq![x], seq![c], 0);
        if x == c {
            assert(matches_at(seq![x], 0, seq![c])) by {
                assert(seq![x].subrange(0, 1) =~= seq![c]);
            }
            assert(seq![x].take(0) + r + replace(seq![x].skip(1), seq![c], r) =~= r) by {
                lemma_replace_absent(seq![x].skip(1), seq![c], r);
            }
        } else {
            assert forall|j: int| 0 <= j implies !#[trigger] matches_at(seq![x], j, seq![c]) by {
                if j == 0 {
                    assert(seq![x].subrange(0, 1)[0] == x);
                }
            }
            lemma_replace_absent(seq![x], seq![c], r);
        }
    }
    lemma_encode_single(t, c, r);
}

proof fn lemma_encode_single(t: Seq<char>, c: char, r: Seq<char>)
    requires
        forall|x: char| #[trigger] replace(seq![x], seq![c], r) == swap(c, r)(x),
    ensures
        replace(t, seq![c], r) == encode(t, swap(c, r)),
    decreases t.len(),
{
    if t.len() == 0 {
        lemma_replace_absent(t, seq![c], r);
    } else {
        assert(t =~= seq![t[0]] + t.drop_first());
        lemma_single_no_straddle(seq![t[0]], t.drop_first(), c);
        lemma_replace_concat(seq![t[0]], t.drop_first(), seq![c], r);
        lemma_encode_single(t.drop_first(), c, r);
    }
}

/// Writing each character as itself gives the text.
proof fn lemma_encode_as_is(t: Seq<char>)
    ensures
        encode(t, |y: char| seq![y]) == t,
    decreases t.len(),
{
    if t.len() > 0 {
        lemma_encode_as_is(t.drop_first());
        assert(seq![t[0]] + t.drop_first() =~= t);
    }
}

/// A code with `&` at most at its start holds no occurrence of a pattern that
/// starts with `&` unless it starts with the pattern.
proof fn lemma_code_absent(code: Seq<char>, p: Seq<char>, r: Seq<char>)
    requires
        p.len() > 0,
        p[0] == '&',
        forall|j: int| 0 < j < code.len() ==> code[j] != '&',
        code.len() > 0 && code[0] == '&' && code.len() >= p.len() ==> code.take(p.len() as int) != p,
    ensures
        replace(code, p, r) == code,
{
    assert forall|j: int| 0 <= j implies !#[trigger] matches_at(code, j, p) by {
        if matches_at(code, j, p) {
            assert(code.subrange(j, j + p.len())[0] == code[j]);
            if j == 0 {
                assert(code.subrange(0, p.len() as int) =~= code.take(p.len() as int));
            }
        }
    }
    lemma_replace_absent(code, p, r);
}

/// A character that does not occur is not replaced.
proof fn lemma_char_absent(code: Seq<char>, c: char, r: Seq<char>)
    requires
        forall|i: int| 0 <= i < code.len() ==> code[i] != c,
    ensures
        replace(code, seq![c], r) == code,
{
    assert forall|j: int| 0 <= j implies !#[trigger] matches_at(code, j, seq![c]) by {
        if matches_at(code, j, seq![c]) {
            assert(code.subrange(j, j + 1)[0] == code[j]);
        }
    }
    lemma_replace_absent(code, seq![c], r);
}

/// A pattern replaced where it is the whole text.
proof fn lemma_code_whole(code: Seq<char>, r: Seq<char>)
    requires
        code.len() > 0,
    ensures
        replace(code, code, r) == r,
{
    lemma_find_from_bounds(code, code, 0);
    assert(matches_at(code, 0, code)) by {
        assert(code.subrange(0, code.len() as int) =~= code);
    }
    lemma_replace_absent(code.skip(code.len() as int), code, r);
    assert(code.take(0) + r + code.skip(code.len() as int) =~= r);
}

/// No occurrence of a pattern that starts with `&` runs out of a code that has
/// no `&` where such an occurrence would start.
proof fn lemma_code_no_straddle(code: Seq<char>, b: Seq<char>, p: Seq<char>)
    requires
        p.len() > 0,
        p[0] == '&',
        forall|j: int| 0 <= j < code.len() && j + p.len() > code.len() ==> code[j] != '&',
    ensures
        no_straddle(code, b, p),
{
    assert forall|j: int| 0 <= j < code.len() && j + p.len() > code.len() implies !#[trigger] matches_at(
        code + b,
        j,
        p,
    ) by {
        if matches_at(code + b, j, p) {
            assert((code + b).subrange(j, j + p.len())[0] == (code + b)[j]);
        }
    }
}

/// Escaping writes each character as its code.
pub proof fn lemma_escape_encodes(t: Seq<char>)
    ensures
        xml_escape_spec(t) == escaped_text(t),
{
    reveal_strlit("&");
    reveal_strlit("<");
    reveal_strlit(">");
    reveal_strlit("&amp;");
    reveal_strlit("&lt;");
    reveal_strlit("&gt;");
    assert("&"@ =~= seq!['&']);
    assert("<"@ =~= seq!['<']);
    assert(">"@ =~= seq!['>']);
    assert("&amp;"@ =~= amp_code());
    assert("&lt;"@ =~= lt_code());
    assert("&gt;"@ =~= gt_code());
    let e1 = swap('&', amp_code());
    let e2 = |c: char|
        if c == '&' {
            amp_code()
        } else if c == '<' {
            lt_code()
        } else {
            seq![c]
        };
    let e3 = |c: char| escaped_char(c);
    lemma_replace_char(t, '&', amp_code());
    assert forall|c: char, b: Seq<char>| #[trigger] no_straddle(e1(c), b, seq!['<']) by {
        lemma_single_no_straddle(e1(c), b, '<');
    }
    assert forall|c: char| #[trigger] replace(e1(c), seq!['<'], lt_code()) == e2(c) by {
        if c == '&' {
            lemma_char_absent(amp_code(), '<', lt_code());
        } else {
            lemma_replace_char(seq![c], '<', lt_code());
            reveal_with_fuel(encode, 2);
            assert(seq![c].drop_first() =~= Seq::<char>::empty());
            if c == '<' {
                assert(encode(seq![c], swap('<', lt_code())) =~= lt_code());
            } else {
                assert(encode(seq![c], swap('<', lt_code())) =~= seq![c]);
            }
        }
    }
    lemma_replace_encoded(t, e1, e2, seq!['<'], lt_code());
    assert forall|c: char, b: Seq<char>| #[trigger] no_straddle(e2(c), b, seq!['>']) by {
        lemma_single_no_straddle(e2(c), b, '>');
    }
    assert forall|c: char| #[trigger] replace(e2(c), seq!['>'], gt_code()) == e3(c) by {
        if c == '&' {
            lemma_char_absent(amp_code(), '>', gt_code());
        } else if c == '<' {
            lemma_char_absent(lt_code(), '>', gt_code());
        } else {
            lemma_replace_char(seq![c], '>', gt_code());
            reveal_with_fuel(encode, 2);
            assert(seq![c].drop_first() =~= Seq::<char>::empty());
            if c == '>' {
                assert(encode(seq![c], swap('>', gt_code())) =~= gt_code());
            } else {
                assert(encode(seq![c], swap('>', gt_code())) =~= seq![c]);
            }
        }
    }
    lemma_replace_encoded(t, e2, e3, seq!['>'], gt_code());
}

/// Escaped text holds no `<`.
pub proof fn lemma_escaped_has_no_lt(t: Seq<char>)
    ensures
        forall|i: int| 0 <= i < xml_escape_spec(t).len() ==> xml_escape_spec(t)[i] != '<',
{
    lemma_escape_encodes(t);
    lemma_encoded_no_lt(t);
}

proof fn lemma_encoded_no_lt(t: Seq<char>)
    ensures
        forall|i: int| 0 <= i < escaped_text(t).len() ==> #[trigger] escaped_text(t)[i] != '<',
    decreases t.len(),
{
    if t.len() > 0 {
        lemma_encoded_no_lt(t.drop_first());
        let head = escaped_char(t[0]);
        let rest = escaped_text(t.drop_first());
        assert(escaped_text(t) == head + rest);
        assert forall|i: int| 0 <= i < (head + rest).len() implies (head + rest)[i] != '<' by {
            if i >= head.len() {
                assert((head + rest)[i] == rest[i - head.len()]);
            }
        }
    }
}

/// Reading `&lt;` back turns each `<` code into `<`.
proof fn lemma_unescape_lt(t: Seq<char>)
    ensures
        replace(escaped_text(t), lt_code(), seq!['<']) == encode(t, |c: char| stage_lt(c)),
{
    let f = |c: char| escaped_char(c);
    let g = |c: char| stage_lt(c);
    assert forall|c: char, b: Seq<char>| #[trigger] no_straddle(f(c), b, lt_code()) by {
        lemma_code_no_straddle(f(c), b, lt_code());
    }
    assert forall|c: char| #[trigger] replace(f(c), lt_code(), seq!['<']) == g(c) by {
        if c == '<' {
            lemma_code_whole(lt_code(), seq!['<']);
        } else {
            lemma_code_absent(f(c), lt_code(), seq!['<']);
        }
    }
    lemma_replace_encoded(t, f, g, lt_code(), seq!['<']);
}

/// Reading `&gt;` back turns each `>` code into `>`.
proof fn lemma_unescape_gt(t: Seq<char>)
    ensures
        replace(encode(t, |c: char| stage_lt(c)), gt_code(), seq!['>']) == encode(t, |c: char| stage_gt(c)),
{
    let f = |c: char| stage_lt(c);
    let g = |c: char| stage_gt(c);
    assert forall|c: char, b: Seq<char>| #[trigger] no_straddle(f(c), b, gt_code()) by {
        lemma_code_no_straddle(f(c), b, gt_code());
    }
    assert forall|c: char| #[trigger] replace(f(c), gt_code(), seq!['>']) == g(c) by {
        if c == '>' {
            lemma_code_whole(gt_code(), seq!['>']);
        } else {
            lemma_code_absent(f(c), gt_code(), seq!['>']);
        }
    }
    lemma_replace_encoded(t, f, g, gt_code(), seq!['>']);
}

/// Reading `&amp;` back turns each `&` code into `&`: the text is back.
proof fn lemma_unescape_amp(t: Seq<char>)
    ensures
        replace(encode(t, |c: char| stage_gt(c)), amp_code(), seq!['&']) == t,
{
    let f = |c: char| stage_gt(c);
    let g = |c: char| seq![c];
    assert forall|c: char, b: Seq<char>| #[trigger] no_straddle(f(c), b, amp_code()) by {
        lemma_code_no_straddle(f(c), b, amp_code());
    }
    assert forall|c: char| #[trigger] replace(f(c), amp_code(), seq!['&']) == g(c) by {
        if c == '&' {
            lemma_code_whole(amp_code(), seq!['&']);
        } else {
            lemma_code_absent(f(c), amp_code(), seq!['&']);
        }
    }
    lemma_replace_encoded(t, f, g, amp_code(), seq!['&']);
    lemma_encode_as_is(t);
}

/// Law: unescaping escaped text gives the text back, unless the text itself
/// spells `&quot;` (which unescaping would read as `"`).
pub proof fn law_escape_round_trip(t: Seq<char>)
    requires
        !contains(t, "&quot;"@),
    ensures
        xml_unescape_spec(xml_escape_spec(t)) == t,
{
    reveal_strlit("&lt;");
    reveal_strlit("&gt;");
    reveal_strlit("&amp;");
    reveal_strlit("<");
    reveal_strlit(">");
    reveal_strlit("&");
    reveal_strlit("&quot;");
    assert("&lt;"@ =~= lt_code());
    assert("&gt;"@ =~= gt_code());
    assert("&amp;"@ =~= amp_code());
    assert("<"@ =~= seq!['<']);
    assert(">"@ =~= seq!['>']);
    assert("&"@ =~= seq!['&']);
    lemma_escape_encodes(t);
    lemma_unescape_lt(t);
    lemma_unescape_gt(t);
    lemma_unescape_amp(t);
    lemma_find_from_bounds(t, "&quot;"@, 0);
    lemma_replace_absent(t, "&quot;"@, "\""@);
}

} // verus!
