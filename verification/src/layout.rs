//! Template bodies: a JSON layout of blocks, HTML, or plain text, turned into HTML
//! with `{{key}}` still in it, and the placeholders filled.
use vstd::prelude::*;

use crate::model::{get_value, lookup, Field, FieldValue};
use crate::paragraphs::{xml_escape, xml_escape_spec};
use crate::text::{
    chars_of, contains, contains_exec, dec, dec_chars, eq_chars, find_from, find_from_exec,
    lemma_find_from_bounds, push_all, push_range, push_str, replace, replace_exec, starts_with,
    string_of, trim, trim_bounds, trim_start, ws,
};

verus! {

/// A block of a layout: a paragraph, or a header of a left and a right part.
#[derive(Debug, Clone)]
pub struct Block {
    pub kind: String,
    pub align: Option<String>,
    pub font: Option<String>,
    pub size: Option<u32>,
    pub html: Option<String>,
    pub left: Option<String>,
    pub right: Option<String>,
    pub indent: Option<u32>,
}

/// A template layout: its version and its blocks.
#[derive(Debug, Clone)]
pub struct Layout {
    pub v: u32,
    pub blocks: Vec<Block>,
}

/// The text of an optional string, or `d`.
pub open spec fn or_default(o: Option<String>, d: Seq<char>) -> Seq<char> {
    match o {
        Some(s) => s@,
        None => d,
    }
}

fn or_default_exec(o: &Option<String>, d: &str) -> (r: Vec<char>)
    ensures
        r@ == or_default(*o, d@),
{
    match o {
        Some(s) => chars_of(s.as_str()),
        None => chars_of(d),
    }
}

/// The body looks like a JSON layout: after leading white space it starts with
/// `{` and it mentions `"blocks"`.
pub open spec fn is_layout_json_spec(body: Seq<char>) -> bool {
    let t = trim_start(body);
    starts_with(t, seq!['{']) && contains(t, "\"blocks\""@)
}

/// The body looks like HTML: after leading white space it starts with `<`.
pub open spec fn is_html_spec(body: Seq<char>) -> bool {
    let t = trim_start(body);
    starts_with(t, seq!['<'])
}

fn trim_start_chars(v: &Vec<char>) -> (out: Vec<char>)
    ensures
        out@ == trim_start(v@),
{
    let mut start: usize = 0;
    assert(v@.skip(0) =~= v@);
    while start < v.len() && ws(v[start])
        invariant
            start <= v.len(),
            trim_start(v@) == trim_start(v@.skip(start as int)),
        decreases v.len() - start,
    {
        assert(v@.skip(start as int).drop_first() =~= v@.skip(start + 1));
        start = start + 1;
    }
    let mut out: Vec<char> = Vec::new();
    push_range(&mut out, v, start, v.len());
    assert(out@ =~= v@.skip(start as int));
    out
}

pub fn is_layout_json(body: &str) -> (b: bool)
    ensures
        b == is_layout_json_spec(body@),
{
    let t = trim_start_chars(&chars_of(body));
    let open: Vec<char> = vec!['{'];
    assert(open@ =~= seq!['{']);
    crate::text::matches_at_exec(&t, 0, &open) && contains_exec(&t, &chars_of("\"blocks\""))
}

pub fn is_html(body: &str) -> (b: bool)
    ensures
        b == is_html_spec(body@),
{
    let t = trim_start_chars(&chars_of(body));
    let open: Vec<char> = vec!['<'];
    assert(open@ =~= seq!['<']);
    crate::text::matches_at_exec(&t, 0, &open)
}

/// `&`, `<` and `>` written as entities.
pub open spec fn html_escape_spec(s: Seq<char>) -> Seq<char> {
    xml_escape_spec(s)
}

/// The font family CSS for a font name (quotes taken out of the name).
pub open spec fn css_font_spec(name: Seq<char>) -> Seq<char> {
    seq!['\''] + replace(name, seq!['\''], Seq::empty()) + "', Times, serif"@
}

fn css_font(name: &Vec<char>) -> (out: Vec<char>)
    ensures
        out@ == css_font_spec(name@),
{
    let q: Vec<char> = vec!['\''];
    assert(q@ =~= seq!['\'']);
    let mut out: Vec<char> = vec!['\''];
    push_all(&mut out, &replace_exec(name, &q, &Vec::new()));
    push_str(&mut out, "', Times, serif");
    assert(out@ =~= css_font_spec(name@));
    out
}

/// `n × 1.25` in decimal: the whole part, then `.25`, `.5` or `.75` where there is
/// a fraction.
pub open spec fn quarter_text(n: u32) -> Seq<char> {
    let q = (n * 5) as nat;
    dec(q / 4) + if q % 4 == 1 {
        ".25"@
    } else if q % 4 == 2 {
        ".5"@
    } else if q % 4 == 3 {
        ".75"@
    } else {
        Seq::empty()
    }
}

fn quarter(n: u32) -> (out: Vec<char>)
    ensures
        out@ == quarter_text(n),
{
    let q: u64 = n as u64 * 5;
    let mut out = dec_chars(q / 4);
    if q % 4 == 1 {
        push_str(&mut out, ".25");
    } else if q % 4 == 2 {
        push_str(&mut out, ".5");
    } else if q % 4 == 3 {
        push_str(&mut out, ".75");
    } else {
        assert(out@ + Seq::<char>::empty() =~= out@);
    }
    out
}

/// The alignment of a block.
pub open spec fn block_align(b: Block) -> Seq<char> {
    match b.align {
        Some(a) => if a@ == "center"@ {
            "center"@
        } else if a@ == "right"@ {
            "right"@
        } else if a@ == "justify"@ {
            "justify"@
        } else {
            "left"@
        },
        None => "left"@,
    }
}

/// The CSS of a block: font, size, alignment and, outside headers, the first
/// line indent (1.25 cm per step).
pub open spec fn block_style(b: Block) -> Seq<char> {
    let font = or_default(b.font, "Times New Roman"@);
    let size: u32 = match b.size {
        Some(s) => s,
        None => 14,
    };
    let indent: u32 = match b.indent {
        Some(i) => i,
        None => 0,
    };
    let indent_css = if indent > 0 && b.kind@ != "header"@ {
        "text-indent:"@ + quarter_text(indent) + "cm;"@
    } else {
        Seq::empty()
    };
    "font-family:"@ + css_font_spec(font) + ";font-size:"@ + dec(size as nat) + "pt;text-align:"@
        + block_align(b) + ";"@ + indent_css
}

/// The HTML of one block.
pub open spec fn block_html(b: Block) -> Seq<char> {
    let style = block_style(b);
    if b.kind@ == "header"@ {
        "<table class=\"zed-header\" style=\""@ + style
            + "width:100%;border:none;\"><tr><td style=\"border:none;width:50%;vertical-align:top;\">"@
            + or_default(b.left, Seq::empty())
            + "</td><td style=\"border:none;width:50%;vertical-align:top;text-align:right;\">"@
            + or_default(b.right, Seq::empty()) + "</td></tr></table>"@
    } else {
        "<p style=\""@ + style + "\">"@ + or_default(b.html, "&nbsp;"@) + "</p>"@
    }
}

/// The HTML of blocks, one after another.
pub open spec fn blocks_html(bs: Seq<Block>) -> Seq<char>
    decreases bs.len(),
{
    if bs.len() == 0 {
        Seq::empty()
    } else {
        block_html(bs[0]) + blocks_html(bs.drop_first())
    }
}

/// The HTML of a layout's blocks, in a `zed-doc` division.
pub open spec fn render_blocks_spec(bs: Seq<Block>) -> Seq<char> {
    "<div class=\"zed-doc\">"@ + blocks_html(bs) + "</div>"@
}

fn block_style_exec(b: &Block) -> (out: Vec<char>)
    ensures
        out@ == block_style(*b),
{
    let font = or_default_exec(&b.font, "Times New Roman");
    let size: u32 = match b.size {
        Some(s) => s,
        None => 14,
    };
    let align: Vec<char> = match &b.align {
        Some(a) => {
            let av = chars_of(a.as_str());
            if eq_chars(&av, &chars_of("center")) {
                chars_of("center")
            } else if eq_chars(&av, &chars_of("right")) {
                chars_of("right")
            } else if eq_chars(&av, &chars_of("justify")) {
                chars_of("justify")
            } else {
                chars_of("left")
            }
        },
        None => chars_of("left"),
    };
    let indent: u32 = match b.indent {
        Some(i) => i,
        None => 0,
    };
    let mut indent_css: Vec<char> = Vec::new();
    if indent > 0 && !eq_chars(&chars_of(b.kind.as_str()), &chars_of("header")) {
        push_str(&mut indent_css, "text-indent:");
        push_all(&mut indent_css, &quarter(indent));
        push_str(&mut indent_css, "cm;");
    }
    let mut out: Vec<char> = chars_of("font-family:");
    push_all(&mut out, &css_font(&font));
    push_str(&mut out, ";font-size:");
    push_all(&mut out, &dec_chars(size as u64));
    push_str(&mut out, "pt;text-align:");
    push_all(&mut out, &align);
    push_str(&mut out, ";");
    push_all(&mut out, &indent_css);
    assert(out@ =~= block_style(*b));
    out
}

fn block_html_exec(b: &Block) -> (out: Vec<char>)
    ensures
        out@ == block_html(*b),
{
    let style = block_style_exec(b);
    if eq_chars(&chars_of(b.kind.as_str()), &chars_of("header")) {
        let mut out: Vec<char> = chars_of("<table class=\"zed-header\" style=\"");
        push_all(&mut out, &style);
        push_str(
            &mut out,
            "width:100%;border:none;\"><tr><td style=\"border:none;width:50%;vertical-align:top;\">",
        );
        push_all(&mut out, &or_default_exec(&b.left, ""));
        push_str(
            &mut out,
            "</td><td style=\"border:none;width:50%;vertical-align:top;text-align:right;\">",
        );
        push_all(&mut out, &or_default_exec(&b.right, ""));
        push_str(&mut out, "</td></tr></table>");
        proof {
            reveal_strlit("");
        }
        assert(out@ =~= block_html(*b));
        out
    } else {
        let mut out: Vec<char> = chars_of("<p style=\"");
        push_all(&mut out, &style);
        push_str(&mut out, "\">");
        push_all(&mut out, &or_default_exec(&b.html, "&nbsp;"));
        push_str(&mut out, "</p>");
        assert(out@ =~= block_html(*b));
        out
    }
}

/// The HTML of a layout's blocks.
pub fn render_blocks(blocks: &Vec<Block>) -> (out: Vec<char>)
    ensures
        out@ == render_blocks_spec(blocks@),
{
    let mut out: Vec<char> = chars_of("<div class=\"zed-doc\">");
    let ghost start = out@;
    let mut i: usize = 0;
    assert(blocks@.skip(0) =~= blocks@);
    while i < blocks.len()
        invariant
            i <= blocks.len(),
            start + blocks_html(blocks@) == out@ + blocks_html(blocks@.skip(i as int)),
        decreases blocks.len() - i,
    {
        assert(blocks@.skip(i as int).drop_first() =~= blocks@.skip(i + 1));
        assert(blocks@.skip(i as int)[0] == blocks@[i as int]);
        let ghost before = out@;
        push_all(&mut out, &block_html_exec(&blocks[i]));
        assert(before + blocks_html(blocks@.skip(i as int)) =~= out@ + blocks_html(
            blocks@.skip(i + 1),
        ));
        i = i + 1;
    }
    assert(blocks@.skip(i as int) =~= Seq::<Block>::empty());
    push_str(&mut out, "</div>");
    assert(out@ =~= render_blocks_spec(blocks@));
    out
}

/// `s` without one trailing `\r`.
pub open spec fn strip_cr(s: Seq<char>) -> Seq<char> {
    if s.len() > 0 && s.last() == '\r' {
        s.drop_last()
    } else {
        s
    }
}

/// `str::lines`: pieces ended by `\n` (a `\r` before it dropped); no empty last
/// line after a final `\n`.
pub open spec fn lines_spec(s: Seq<char>) -> Seq<Seq<char>>
    decreases s.len(),
{
    if s.len() == 0 {
        Seq::empty()
    } else {
        match find_from(s, seq!['\n'], 0) {
            Some(i) => if 0 <= i < s.len() {
                seq![strip_cr(s.take(i))] + lines_spec(s.skip(i + 1))
            } else {
                seq![s]
            },
            None => seq![s],
        }
    }
}

/// A line as a paragraph; an empty line as a paragraph with a space.
pub open spec fn line_html(line: Seq<char>) -> Seq<char> {
    if line.len() == 0 {
        "<p>&nbsp;</p>"@
    } else {
        "<p>"@ + html_escape_spec(line) + "</p>"@
    }
}

/// Each line as a paragraph.
pub open spec fn text_lines_html(lines: Seq<Seq<char>>) -> Seq<char>
    decreases lines.len(),
{
    if lines.len() == 0 {
        Seq::empty()
    } else {
        line_html(lines[0]) + text_lines_html(lines.drop_first())
    }
}

/// A to_html body with a line: the paragraphs of the rest follow.
proof fn lemma_text_lines_cons(x: Seq<char>, rest: Seq<Seq<char>>)
    ensures
        text_lines_html(seq![x] + rest) == line_html(x) + text_lines_html(rest),
{
    assert((seq![x] + rest).drop_first() =~= rest);
    assert((seq![x] + rest)[0] == x);
}

/// Where the line that starts at `pos` ends, and whether a `\n` ends it.
fn next_line(body: &Vec<char>, pos: usize) -> (r: (usize, bool))
    requires
        pos < body.len(),
    ensures
        pos <= r.0 <= body.len(),
        !r.1 ==> r.0 == body.len() && lines_spec(body@.skip(pos as int)) == seq![
            body@.skip(pos as int),
        ],
        r.1 ==> r.0 < body.len() && lines_spec(body@.skip(pos as int)) == seq![
            strip_cr(body@.subrange(pos as int, r.0 as int)),
        ] + lines_spec(body@.skip(r.0 + 1)),
{
    let nl: Vec<char> = vec!['\n'];
    assert(nl@ =~= seq!['\n']);
    let ghost rest = body@.skip(pos as int);
    let found = find_from_exec(body, &nl, pos);
    proof {
        lemma_find_from_bounds(body@, nl@, pos as int);
        lemma_find_from_bounds(rest, nl@, 0);
        match find_from(rest, seq!['\n'], 0) {
            Some(k) => {
                assert(rest.subrange(k, k + 1) =~= body@.subrange(pos + k, pos + k + 1));
                if found is None {
                    assert(crate::text::matches_at(body@, pos + k, nl@));
                } else {
                    let e = found->0;
                    assert(rest.subrange(e - pos, e - pos + 1) =~= body@.subrange(e as int, e + 1));
                    assert(crate::text::matches_at(rest, e - pos, nl@));
                    if k < e - pos {
                        assert(crate::text::matches_at(body@, pos + k, nl@));
                    }
                    assert(rest.take(e - pos) =~= body@.subrange(pos as int, e as int));
                    assert(rest.skip(e - pos + 1) =~= body@.skip(e + 1));
                }
            },
            None => {
                if found is Some {
                    let e = found->0;
                    assert(rest.subrange(e - pos, e - pos + 1) =~= body@.subrange(e as int, e + 1));
                    assert(crate::text::matches_at(rest, e - pos, nl@));
                }
            },
        }
    }
    match found {
        Some(e) => (e, true),
        None => (body.len(), false),
    }
}

fn text_to_html(body: &Vec<char>) -> (out: Vec<char>)
    ensures
        out@ == text_lines_html(lines_spec(body@)),
{
    let mut out: Vec<char> = Vec::new();
    let mut pos: usize = 0;
    assert(body@.skip(0) =~= body@);
    while pos < body.len()
        invariant
            pos <= body.len(),
            text_lines_html(lines_spec(body@)) == out@ + text_lines_html(
                lines_spec(body@.skip(pos as int)),
            ),
        decreases body.len() - pos,
    {
        let (end, more) = next_line(body, pos);
        let mut line: Vec<char> = Vec::new();
        push_range(&mut line, body, pos, end);
        if more && line.len() > 0 && line[line.len() - 1] == '\r' {
            line.pop();
        }
        let ghost before = out@;
        if line.len() == 0 {
            push_str(&mut out, "<p>&nbsp;</p>");
        } else {
            push_str(&mut out, "<p>");
            push_all(&mut out, &xml_escape(&line));
            push_str(&mut out, "</p>");
        }
        assert(out@ =~= before + line_html(line@));
        if more {
            assert(line@ =~= strip_cr(body@.subrange(pos as int, end as int)));
            proof {
                lemma_text_lines_cons(line@, lines_spec(body@.skip(end + 1)));
            }
            pos = end + 1;
        } else {
            assert(line@ =~= body@.skip(pos as int));
            proof {
                lemma_text_lines_cons(line@, Seq::empty());
            }
            assert(seq![line@] + Seq::<Seq<char>>::empty() =~= seq![line@]);
            assert(body@.skip(body.len() as int) =~= Seq::<char>::empty());
            pos = body.len();
        }
    }
    assert(body@.skip(pos as int) =~= Seq::<char>::empty());
    assert(out@ + Seq::<char>::empty() =~= out@);
    out
}

/// A template body as HTML: nothing for a blank body; the blocks of a layout
/// (of version 1 or later) where `parsed` is the body read as one; the body
/// itself, trimmed, where it is HTML; otherwise a paragraph per line of text.
/// `parsed` is the trimmed body read as a JSON layout, where it reads as one.
pub open spec fn to_html_spec(body: Seq<char>, parsed: Option<Layout>) -> Seq<char> {
    let trimmed = trim(body);
    if trimmed.len() == 0 {
        Seq::empty()
    } else if parsed is Some && parsed->Some_0.v >= 1 {
        render_blocks_spec(parsed->Some_0.blocks@)
    } else if is_html_spec(trimmed) {
        trimmed
    } else {
        text_lines_html(lines_spec(body))
    }
}

/// A template body as HTML with `{{key}}` still in it. `parsed` is what the
/// trimmed body reads as when read as a JSON layout (`None` where it does not).
pub fn to_html(body: &str, parsed: &Option<Layout>) -> (out: String)
    ensures
        out@ == to_html_spec(body@, *parsed),
{
    let b = chars_of(body);
    let (s, e) = trim_bounds(&b);
    if s == e {
        return String::new();
    }
    if let Some(layout) = parsed {
        if layout.v >= 1 {
            return string_of(&render_blocks(&layout.blocks));
        }
    }
    let mut trimmed: Vec<char> = Vec::new();
    push_range(&mut trimmed, &b, s, e);
    if is_html(string_of(&trimmed).as_str()) {
        return string_of(&trimmed);
    }
    string_of(&text_to_html(&b))
}

/// The text a value gives in HTML: nothing for a missing or null value, strings
/// and JSON escaped, numbers as written, `да`/`нет` for booleans.
pub open spec fn html_value_text(v: Option<FieldValue>) -> Seq<char> {
    match v {
        None => Seq::empty(),
        Some(FieldValue::Null) => Seq::empty(),
        Some(FieldValue::Str(s)) => html_escape_spec(s@),
        Some(FieldValue::Number(n)) => n@,
        Some(FieldValue::Bool(b)) => if b {
            "да"@
        } else {
            "нет"@
        },
        Some(FieldValue::Other(j)) => html_escape_spec(j@),
    }
}

/// `{{key}}` of each field in turn replaced by its value's text.
pub open spec fn fill_fold(html: Seq<char>, fields: Seq<Field>, values: Seq<(String, FieldValue)>) -> Seq<
    char,
>
    decreases fields.len(),
{
    if fields.len() == 0 {
        html
    } else {
        fill_fold(
            replace(
                html,
                crate::marks::placeholder(fields[0].key@),
                html_value_text(lookup(values, fields[0].key@)),
            ),
            fields.drop_first(),
            values,
        )
    }
}

fn html_value(v: &Option<FieldValue>) -> (out: Vec<char>)
    ensures
        out@ == html_value_text(*v),
{
    match v {
        None => Vec::new(),
        Some(FieldValue::Null) => Vec::new(),
        Some(FieldValue::Str(s)) => xml_escape(&chars_of(s.as_str())),
        Some(FieldValue::Number(n)) => chars_of(n.as_str()),
        Some(FieldValue::Bool(true)) => chars_of("да"),
        Some(FieldValue::Bool(false)) => chars_of("нет"),
        Some(FieldValue::Other(j)) => xml_escape(&chars_of(j.as_str())),
    }
}

/// Fills the placeholders of the fields in `html` with the values given.
pub fn fill_placeholders(html: &str, fields: &Vec<Field>, values: &Vec<(String, FieldValue)>) -> (out: String)
    ensures
        out@ == fill_fold(html@, fields@, values@),
{
    let mut cur = chars_of(html);
    let mut i: usize = 0;
    assert(fields@.skip(0) =~= fields@);
    while i < fields.len()
        invariant
            i <= fields.len(),
            fill_fold(html@, fields@, values@) == fill_fold(cur@, fields@.skip(i as int), values@),
        decreases fields.len() - i,
    {
        assert(fields@.skip(i as int).drop_first() =~= fields@.skip(i + 1));
        assert(fields@.skip(i as int)[0] == fields@[i as int]);
        let key = chars_of(fields[i].key.as_str());
        let mut needle: Vec<char> = vec!['{', '{'];
        push_all(&mut needle, &key);
        needle.push('}');
        needle.push('}');
        assert(needle@ =~= crate::marks::placeholder(fields@[i as int].key@));
        let v = get_value(values, fields[i].key.as_str());
        cur = replace_exec(&cur, &needle, &html_value(&v));
        i = i + 1;
    }
    string_of(&cur)
}

/// The parts of a block that hold text: the left and right parts of a header,
/// the HTML of any other block.
pub open spec fn block_cells_spec(b: Block) -> Seq<Seq<char>> {
    if b.kind@ == "header"@ {
        seq![or_default(b.left, Seq::empty()), or_default(b.right, Seq::empty())]
    } else {
        seq![or_default(b.html, Seq::empty())]
    }
}

pub fn block_cells(b: &Block) -> (cells: Vec<Vec<char>>)
    ensures
        cells@.len() == block_cells_spec(*b).len(),
        forall|k: int| 0 <= k < cells@.len() ==> #[trigger] cells@[k]@ == block_cells_spec(*b)[k],
{
    proof {
        reveal_strlit("");
    }
    let mut cells: Vec<Vec<char>> = Vec::new();
    if eq_chars(&chars_of(b.kind.as_str()), &chars_of("header")) {
        cells.push(or_default_exec(&b.left, ""));
        cells.push(or_default_exec(&b.right, ""));
    } else {
        cells.push(or_default_exec(&b.html, ""));
    }
    cells
}

} // verus!
