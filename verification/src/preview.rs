//! The preview of a document: its `.docx` turned into HTML, put on an A4 sheet.
use vstd::prelude::*;

use crate::archive::zip_text_result;
use crate::error::{is_bad, is_internal, AppError};
use crate::paragraphs::{xml_escape, xml_escape_spec};
use crate::text::{
    chars_of, dec, dec_chars, eq_chars, parse_u32, parse_u32_spec, push_all, push_str, replace,
    replace_exec, string_of, utf8_len, utf8_len_exceeds,
};
use crate::xmlread::{
    attr, attr_spec, is_last, name_is, name_is_exec, xml_events_of, xml_next, xml_reader, xml_rest,
    XmlEvent, XmlTag,
};

verus! {

// ---------------------------------------------------------------------------
// The sheet
// ---------------------------------------------------------------------------
/// The page: `inner` on `pages` A4 sheets under the title `title`; for printing
/// the colours are plain black on white.
pub open spec fn sheet_spec(title: Seq<char>, inner: Seq<char>, pages: u32, for_pdf: bool) -> Seq<
    char,
> {
    "<!DOCTYPE html>\n<html lang=\"ru\">\n<head>\n<meta charset=\"utf-8\">\n<title>"@
        + xml_escape_spec(title) + "</title>\n<style>\n  "@ + (if for_pdf {
        "html, body { margin: 0; background: #fff; color: #000; }"@
    } else {
        "html, body { margin: 0; background: #fff; color: #241c15; }"@
    }) + "\n  @page { size: A4; margin: 0; }\n  .page {\n    width: 210mm;\n    height: "@ + dec(
        (297 * pages) as nat,
    )
        + "mm;\n    overflow: hidden;\n    margin: 0 auto;\n    background: #fff;\n    padding: 18mm 16mm;\n    box-sizing: border-box;\n    font-family: \"Times New Roman\", Times, \"PT Serif\", serif;\n    font-size: 14pt;\n    line-height: 1.25;\n  }\n  p { margin: 0 0 0.25em; min-height: 1em; }\n  table { border-collapse: collapse; width: 100%; margin: 0.2em 0; }\n  td, th { border: none; padding: 0 6px 0 0; vertical-align: top; }\n  .zed-header td { vertical-align: top; }\n</style>\n</head>\n<body><div class=\"page\">"@
        + inner + "</div></body>\n</html>"@
}

fn wrap_sheet(title: &str, inner: &str, pages: u32, for_pdf: bool) -> (s: String)
    requires
        pages <= 5,
    ensures
        s@ == sheet_spec(title@, inner@, pages, for_pdf),
{
    let mut out: Vec<char> = chars_of(
        "<!DOCTYPE html>\n<html lang=\"ru\">\n<head>\n<meta charset=\"utf-8\">\n<title>",
    );
    push_all(&mut out, &xml_escape(&chars_of(title)));
    push_str(&mut out, "</title>\n<style>\n  ");
    if for_pdf {
        push_str(&mut out, "html, body { margin: 0; background: #fff; color: #000; }");
    } else {
        push_str(&mut out, "html, body { margin: 0; background: #fff; color: #241c15; }");
    }
    push_str(&mut out, "\n  @page { size: A4; margin: 0; }\n  .page {\n    width: 210mm;\n    height: ");
    let height: u32 = 297 * pages;
    push_all(&mut out, &dec_chars(height as u64));
    push_str(
        &mut out,
        "mm;\n    overflow: hidden;\n    margin: 0 auto;\n    background: #fff;\n    padding: 18mm 16mm;\n    box-sizing: border-box;\n    font-family: \"Times New Roman\", Times, \"PT Serif\", serif;\n    font-size: 14pt;\n    line-height: 1.25;\n  }\n  p { margin: 0 0 0.25em; min-height: 1em; }\n  table { border-collapse: collapse; width: 100%; margin: 0.2em 0; }\n  td, th { border: none; padding: 0 6px 0 0; vertical-align: top; }\n  .zed-header td { vertical-align: top; }\n</style>\n</head>\n<body><div class=\"page\">",
    );
    push_str(&mut out, inner);
    push_str(&mut out, "</div></body>\n</html>");
    assert(out@ =~= sheet_spec(title@, inner@, pages, for_pdf));
    string_of(&out)
}

/// The preview page: one sheet, screen colours.
pub fn wrap_preview_page(title: &str, inner: &str) -> (s: String)
    ensures
        s@ == sheet_spec(title@, inner@, 1, false),
{
    wrap_sheet(title, inner, 1, false)
}

/// The number of sheets printed for `pages`: held between one and five.
pub open spec fn print_sheets(pages: u32) -> u32 {
    if pages < 1 {
        1
    } else if pages > 5 {
        5
    } else {
        pages
    }
}

/// The print page: between one and five sheets, plain colours.
pub fn wrap_print_page(title: &str, inner: &str, pages: u32) -> (s: String)
    ensures
        s@ == sheet_spec(title@, inner@, print_sheets(pages), true),
{
    let p: u32 = if pages < 1 {
        1
    } else if pages > 5 {
        5
    } else {
        pages
    };
    wrap_sheet(title, inner, p, true)
}

/// The print page is the preview page with two changes: the text colour
/// `#241c15` becomes `#000`, and the sheet's height of 297mm becomes 297mm for
/// each sheet printed (`pages` held between one and five).
pub proof fn law_print_page_is_preview_page(title: Seq<char>, inner: Seq<char>, pages: u32)
    ensures
        exists|a: Seq<char>, b: Seq<char>, c: Seq<char>|
            sheet_spec(title, inner, 1, false) == a + "color: #241c15;"@ + b + "height: 297mm;"@ + c
                && sheet_spec(title, inner, print_sheets(pages), true) == a + "color: #000;"@ + b
                + "height: "@ + dec((297 * print_sheets(pages)) as nat) + "mm;"@ + c,
{
    let head = "<!DOCTYPE html>\n<html lang=\"ru\">\n<head>\n<meta charset=\"utf-8\">\n<title>"@
        + xml_escape_spec(title) + "</title>\n<style>\n  "@;
    let a = head + "html, body { margin: 0; background: #fff; "@;
    let b = " }\n  @page { size: A4; margin: 0; }\n  .page {\n    width: 210mm;\n    "@;
    let tail = "\n    overflow: hidden;\n    margin: 0 auto;\n    background: #fff;\n    padding: 18mm 16mm;\n    box-sizing: border-box;\n    font-family: \"Times New Roman\", Times, \"PT Serif\", serif;\n    font-size: 14pt;\n    line-height: 1.25;\n  }\n  p { margin: 0 0 0.25em; min-height: 1em; }\n  table { border-collapse: collapse; width: 100%; margin: 0.2em 0; }\n  td, th { border: none; padding: 0 6px 0 0; vertical-align: top; }\n  .zed-header td { vertical-align: top; }\n</style>\n</head>\n<body><div class=\"page\">"@;
    let c = tail + inner + "</div></body>\n</html>"@;
    reveal_strlit("html, body { margin: 0; background: #fff; color: #000; }");
    reveal_strlit("html, body { margin: 0; background: #fff; color: #241c15; }");
    reveal_strlit("html, body { margin: 0; background: #fff; ");
    reveal_strlit("color: #241c15;");
    reveal_strlit("color: #000;");
    reveal_strlit(" }");
    reveal_strlit("\n  @page { size: A4; margin: 0; }\n  .page {\n    width: 210mm;\n    ");
    reveal_strlit(" }\n  @page { size: A4; margin: 0; }\n  .page {\n    width: 210mm;\n    ");
    reveal_strlit("\n  @page { size: A4; margin: 0; }\n  .page {\n    width: 210mm;\n    height: ");
    reveal_strlit("height: ");
    reveal_strlit("height: 297mm;");
    reveal_strlit("mm;");
    reveal_strlit("\n    overflow: hidden;\n    margin: 0 auto;\n    background: #fff;\n    padding: 18mm 16mm;\n    box-sizing: border-box;\n    font-family: \"Times New Roman\", Times, \"PT Serif\", serif;\n    font-size: 14pt;\n    line-height: 1.25;\n  }\n  p { margin: 0 0 0.25em; min-height: 1em; }\n  table { border-collapse: collapse; width: 100%; margin: 0.2em 0; }\n  td, th { border: none; padding: 0 6px 0 0; vertical-align: top; }\n  .zed-header td { vertical-align: top; }\n</style>\n</head>\n<body><div class=\"page\">");
    reveal_strlit("mm;\n    overflow: hidden;\n    margin: 0 auto;\n    background: #fff;\n    padding: 18mm 16mm;\n    box-sizing: border-box;\n    font-family: \"Times New Roman\", Times, \"PT Serif\", serif;\n    font-size: 14pt;\n    line-height: 1.25;\n  }\n  p { margin: 0 0 0.25em; min-height: 1em; }\n  table { border-collapse: collapse; width: 100%; margin: 0.2em 0; }\n  td, th { border: none; padding: 0 6px 0 0; vertical-align: top; }\n  .zed-header td { vertical-align: top; }\n</style>\n</head>\n<body><div class=\"page\">");
    assert(dec(297) =~= seq!['2', '9', '7']) by {
        reveal_with_fuel(dec, 3);
    }
    assert("html, body { margin: 0; background: #fff; color: #241c15; }"@ =~= "html, body { margin: 0; background: #fff; "@
        + "color: #241c15;"@ + " }"@);
    assert("html, body { margin: 0; background: #fff; color: #000; }"@ =~= "html, body { margin: 0; background: #fff; "@
        + "color: #000;"@ + " }"@);
    assert(" }\n  @page { size: A4; margin: 0; }\n  .page {\n    width: 210mm;\n    "@ =~= " }"@
        + "\n  @page { size: A4; margin: 0; }\n  .page {\n    width: 210mm;\n    "@);
    assert("\n  @page { size: A4; margin: 0; }\n  .page {\n    width: 210mm;\n    height: "@ =~= "\n  @page { size: A4; margin: 0; }\n  .page {\n    width: 210mm;\n    "@ + "height: "@);
    assert("height: 297mm;"@ =~= "height: "@ + dec(297) + "mm;"@);
    assert("mm;\n    overflow: hidden;\n    margin: 0 auto;\n    background: #fff;\n    padding: 18mm 16mm;\n    box-sizing: border-box;\n    font-family: \"Times New Roman\", Times, \"PT Serif\", serif;\n    font-size: 14pt;\n    line-height: 1.25;\n  }\n  p { margin: 0 0 0.25em; min-height: 1em; }\n  table { border-collapse: collapse; width: 100%; margin: 0.2em 0; }\n  td, th { border: none; padding: 0 6px 0 0; vertical-align: top; }\n  .zed-header td { vertical-align: top; }\n</style>\n</head>\n<body><div class=\"page\">"@ =~= "mm;"@ + tail);
    assert(sheet_spec(title, inner, 1, false) =~= a + "color: #241c15;"@ + b + "height: 297mm;"@ + c);
    assert(sheet_spec(title, inner, print_sheets(pages), true) =~= a + "color: #000;"@ + b + "height: "@
        + dec((297 * print_sheets(pages)) as nat) + "mm;"@ + c);
}

// ---------------------------------------------------------------------------
// From WordprocessingML to HTML
// ---------------------------------------------------------------------------
/// What is known while the events of a document are turned into HTML.
pub struct HtmlState {
    pub html: Seq<char>,
    pub in_t: bool,
    pub in_p_pr: bool,
    pub in_r_pr: bool,
    pub in_r: bool,
    pub p_opened: bool,
    pub p_align: Seq<char>,
    pub bold: bool,
    pub italic: bool,
    pub underline: bool,
    pub sz: Option<u32>,
    pub color: Option<Seq<char>>,
}

/// The state before the first event.
pub open spec fn html_start() -> HtmlState {
    HtmlState {
        html: Seq::empty(),
        in_t: false,
        in_p_pr: false,
        in_r_pr: false,
        in_r: false,
        p_opened: false,
        p_align: Seq::empty(),
        bold: false,
        italic: false,
        underline: false,
        sz: None,
        color: None,
    }
}

/// `html` with a paragraph opened, aligned by `align` where it says anything.
pub open spec fn open_p_spec(html: Seq<char>, align: Seq<char>) -> Seq<char> {
    if align.len() == 0 {
        html + "<p>"@
    } else {
        html + "<p style=\""@ + align + "\">"@
    }
}

/// The state with a paragraph open.
pub open spec fn ensure_p(st: HtmlState) -> HtmlState {
    if !st.p_opened {
        HtmlState { html: open_p_spec(st.html, st.p_align), p_opened: true, ..st }
    } else {
        st
    }
}

/// The CSS for a paragraph alignment value.
pub open spec fn align_of(val: Seq<char>) -> Seq<char> {
    if val == "center"@ {
        "text-align:center;"@
    } else if val == "right"@ {
        "text-align:right;"@
    } else if val == "both"@ {
        "text-align:justify;"@
    } else {
        Seq::empty()
    }
}

/// A switch such as `<w:b/>` is on unless its value is `0`, `false` or `off`.
pub open spec fn attr_on_spec(tag: XmlTag) -> bool {
    match attr_spec(tag.attrs@, "val"@) {
        Some(v) => !(v == "0"@ || v == "false"@ || v == "off"@),
        None => true,
    }
}

/// A run property tag (`b`, `i`, `u`, `sz`, `color`) read into the state, where
/// run properties are being read; `None` where `tag` is none of these there.
pub open spec fn run_prop(st: HtmlState, tag: XmlTag) -> Option<HtmlState> {
    let n = tag.name@;
    if !st.in_r_pr {
        None
    } else if name_is(n, "b"@) {
        Some(HtmlState { bold: attr_on_spec(tag), ..st })
    } else if name_is(n, "i"@) {
        Some(HtmlState { italic: attr_on_spec(tag), ..st })
    } else if name_is(n, "u"@) {
        Some(HtmlState { underline: attr_spec(tag.attrs@, "val"@) != Some("none"@), ..st })
    } else if name_is(n, "sz"@) {
        Some(
            match attr_spec(tag.attrs@, "val"@) {
                Some(v) => HtmlState { sz: parse_u32_spec(v), ..st },
                None => st,
            },
        )
    } else if name_is(n, "color"@) {
        Some(
            match attr_spec(tag.attrs@, "val"@) {
                Some(v) => if v != "auto"@ && utf8_len(v) == 6 {
                    HtmlState { color: Some(v), ..st }
                } else {
                    st
                },
                None => st,
            },
        )
    } else {
        None
    }
}

/// A paragraph alignment tag read into the state.
pub open spec fn jc_step(st: HtmlState, tag: XmlTag) -> HtmlState {
    match attr_spec(tag.attrs@, "val"@) {
        Some(v) => HtmlState { p_align: align_of(v), ..st },
        None => st,
    }
}

/// An empty tag.
pub open spec fn empty_step(st: HtmlState, tag: XmlTag) -> HtmlState {
    let n = tag.name@;
    if name_is(n, "p"@) {
        HtmlState { html: st.html + "<p>&nbsp;</p>"@, ..st }
    } else if name_is(n, "tab"@) {
        let s2 = ensure_p(st);
        HtmlState { html: s2.html + "&emsp;"@, ..s2 }
    } else if name_is(n, "br"@) || name_is(n, "cr"@) {
        HtmlState { html: st.html + "<br>"@, ..st }
    } else if run_prop(st, tag) is Some {
        run_prop(st, tag)->Some_0
    } else if name_is(n, "jc"@) && st.in_p_pr {
        jc_step(st, tag)
    } else {
        st
    }
}

/// A start tag.
pub open spec fn start_step(st: HtmlState, tag: XmlTag) -> HtmlState {
    let n = tag.name@;
    if name_is(n, "tbl"@) {
        HtmlState { html: st.html + "<table>"@, ..st }
    } else if name_is(n, "tr"@) {
        HtmlState { html: st.html + "<tr>"@, ..st }
    } else if name_is(n, "tc"@) {
        HtmlState { html: st.html + "<td>"@, ..st }
    } else if name_is(n, "p"@) {
        HtmlState { p_opened: false, p_align: Seq::empty(), in_p_pr: false, ..st }
    } else if name_is(n, "pPr"@) {
        HtmlState { in_p_pr: true, ..st }
    } else if name_is(n, "jc"@) && st.in_p_pr {
        jc_step(st, tag)
    } else if name_is(n, "r"@) {
        let s2 = ensure_p(st);
        HtmlState {
            in_r: true,
            in_r_pr: false,
            bold: false,
            italic: false,
            underline: false,
            sz: None,
            color: None,
            ..s2
        }
    } else if name_is(n, "rPr"@) && st.in_r {
        HtmlState { in_r_pr: true, ..st }
    } else if run_prop(st, tag) is Some {
        run_prop(st, tag)->Some_0
    } else if name_is(n, "t"@) {
        HtmlState { in_t: true, ..st }
    } else if name_is(n, "tab"@) {
        let s2 = ensure_p(st);
        HtmlState { html: s2.html + "&emsp;"@, ..s2 }
    } else if name_is(n, "br"@) || name_is(n, "cr"@) {
        HtmlState { html: st.html + "<br>"@, ..st }
    } else {
        st
    }
}

/// An end tag.
pub open spec fn end_step(st: HtmlState, n: Seq<u8>) -> HtmlState {
    if name_is(n, "tbl"@) {
        HtmlState { html: st.html + "</table>"@, ..st }
    } else if name_is(n, "tr"@) {
        HtmlState { html: st.html + "</tr>"@, ..st }
    } else if name_is(n, "tc"@) {
        HtmlState { html: st.html + "</td>"@, ..st }
    } else if name_is(n, "pPr"@) {
        HtmlState { in_p_pr: false, ..st }
    } else if name_is(n, "rPr"@) {
        HtmlState { in_r_pr: false, ..st }
    } else if name_is(n, "r"@) {
        HtmlState { in_r: false, ..st }
    } else if name_is(n, "t"@) {
        HtmlState { in_t: false, ..st }
    } else if name_is(n, "p"@) {
        HtmlState {
            html: st.html + if !st.p_opened {
                "<p>&nbsp;</p>"@
            } else {
                "</p>"@
            },
            p_opened: false,
            ..st
        }
    } else {
        st
    }
}

/// A font size in points from half-points: the whole part, and `.5` for an odd
/// number of half-points.
pub open spec fn half_points_text(sz: u32) -> Seq<char> {
    dec((sz / 2) as nat) + if sz % 2 == 1 {
        ".5"@
    } else {
        Seq::empty()
    }
}

/// The CSS of a run's formatting.
pub open spec fn span_style(st: HtmlState) -> Seq<char> {
    (if st.bold {
        "font-weight:bold;"@
    } else {
        Seq::empty()
    }) + (if st.italic {
        "font-style:italic;"@
    } else {
        Seq::empty()
    }) + (if st.underline {
        "text-decoration:underline;"@
    } else {
        Seq::empty()
    }) + (match st.sz {
        Some(z) => "font-size:"@ + half_points_text(z) + "pt;"@,
        None => Seq::empty(),
    }) + (match st.color {
        Some(c) => "color:#"@ + c + ";"@,
        None => Seq::empty(),
    })
}

/// Text inside a text element: escaped, line breaks as `<br>`, in a span where
/// the run is formatted.
pub open spec fn text_step(st: HtmlState, u: Option<String>) -> HtmlState {
    if !st.in_t {
        st
    } else {
        let s2 = ensure_p(st);
        match u {
            None => s2,
            Some(s) => {
                let text = replace(xml_escape_spec(s@), seq!['\n'], "<br>"@);
                let span = span_style(s2);
                HtmlState {
                    html: s2.html + if span.len() == 0 {
                        text
                    } else {
                        "<span style=\""@ + span + "\">"@ + text + "</span>"@
                    },
                    ..s2
                }
            },
        }
    }
}

/// The HTML made from the events `evs`, reading stopping at the end or an error.
pub open spec fn html_fold(evs: Seq<XmlEvent>, st: HtmlState) -> Seq<char>
    decreases evs.len(),
{
    if evs.len() == 0 {
        st.html
    } else {
        match evs[0] {
            XmlEvent::Start(t) => html_fold(evs.drop_first(), start_step(st, t)),
            XmlEvent::Empty(t) => html_fold(evs.drop_first(), empty_step(st, t)),
            XmlEvent::End(n) => html_fold(evs.drop_first(), end_step(st, n@)),
            XmlEvent::Text(u) => html_fold(evs.drop_first(), text_step(st, u)),
            XmlEvent::Eof => st.html,
            XmlEvent::Other => html_fold(evs.drop_first(), st),
        }
    }
}

/// The HTML of a document's main part: paragraphs with their alignment, runs
/// with bold, italic, underline, size and colour, tabs, breaks and tables.
pub open spec fn document_html_spec(xml: Seq<char>) -> Seq<char> {
    html_fold(xml_events_of(xml), html_start())
}

/// The state being built.
struct HtmlBuild {
    html: Vec<char>,
    in_t: bool,
    in_p_pr: bool,
    in_r_pr: bool,
    in_r: bool,
    p_opened: bool,
    p_align: Vec<char>,
    bold: bool,
    italic: bool,
    underline: bool,
    sz: Option<u32>,
    color: Option<Vec<char>>,
}

impl View for HtmlBuild {
    type V = HtmlState;

    closed spec fn view(&self) -> HtmlState {
        HtmlState {
            html: self.html@,
            in_t: self.in_t,
            in_p_pr: self.in_p_pr,
            in_r_pr: self.in_r_pr,
            in_r: self.in_r,
            p_opened: self.p_opened,
            p_align: self.p_align@,
            bold: self.bold,
            italic: self.italic,
            underline: self.underline,
            sz: self.sz,
            color: match self.color {
                Some(c) => Some(c@),
                None => None,
            },
        }
    }
}

fn open_p(st: &mut HtmlBuild)
    ensures
        final(st)@ == ensure_p(old(st)@),
{
    if !st.p_opened {
        if st.p_align.len() == 0 {
            push_str(&mut st.html, "<p>");
        } else {
            push_str(&mut st.html, "<p style=\"");
            let align = st.p_align.clone();
            push_all(&mut st.html, &align);
            push_str(&mut st.html, "\">");
        }
        st.p_opened = true;
    }
}

/// Whether a switch tag is on.
fn attr_on(tag: &XmlTag) -> (b: bool)
    ensures
        b == attr_on_spec(*tag),
{
    match attr(tag, "val") {
        Some(v) => {
            let c = chars_of(v.as_str());
            !(eq_chars(&c, &chars_of("0")) || eq_chars(&c, &chars_of("false")) || eq_chars(
                &c,
                &chars_of("off"),
            ))
        },
        None => true,
    }
}

fn align_exec(v: &Vec<char>) -> (a: Vec<char>)
    ensures
        a@ == align_of(v@),
{
    if eq_chars(v, &chars_of("center")) {
        chars_of("text-align:center;")
    } else if eq_chars(v, &chars_of("right")) {
        chars_of("text-align:right;")
    } else if eq_chars(v, &chars_of("both")) {
        chars_of("text-align:justify;")
    } else {
        Vec::new()
    }
}

fn jc_exec(st: &mut HtmlBuild, tag: &XmlTag)
    ensures
        final(st)@ == jc_step(old(st)@, *tag),
{
    if let Some(v) = attr(tag, "val") {
        st.p_align = align_exec(&chars_of(v.as_str()));
    }
}

/// Reads a run property tag; `false` where `tag` is none of them here.
fn run_prop_exec(st: &mut HtmlBuild, tag: &XmlTag) -> (done: bool)
    ensures
        done == run_prop(old(st)@, *tag) is Some,
        done ==> final(st)@ == run_prop(old(st)@, *tag)->Some_0,
        !done ==> final(st)@ == old(st)@,
{
    if !st.in_r_pr {
        return false;
    }
    let n = &tag.name;
    if name_is_exec(n, "b") {
        st.bold = attr_on(tag);
    } else if name_is_exec(n, "i") {
        st.italic = attr_on(tag);
    } else if name_is_exec(n, "u") {
        let none = match attr(tag, "val") {
            Some(v) => eq_chars(&chars_of(v.as_str()), &chars_of("none")),
            None => false,
        };
        st.underline = !none;
    } else if name_is_exec(n, "sz") {
        if let Some(v) = attr(tag, "val") {
            st.sz = parse_u32(&chars_of(v.as_str()));
        }
    } else if name_is_exec(n, "color") {
        if let Some(v) = attr(tag, "val") {
            let c = chars_of(v.as_str());
            if !eq_chars(&c, &chars_of("auto")) && !utf8_len_exceeds(&c, 6) && utf8_len_exceeds(
                &c,
                5,
            ) {
                st.color = Some(c);
            }
        }
    } else {
        return false;
    }
    true
}

fn empty_exec(st: &mut HtmlBuild, tag: &XmlTag)
    ensures
        final(st)@ == empty_step(old(st)@, *tag),
{
    let n = &tag.name;
    if name_is_exec(n, "p") {
        push_str(&mut st.html, "<p>&nbsp;</p>");
    } else if name_is_exec(n, "tab") {
        open_p(st);
        push_str(&mut st.html, "&emsp;");
    } else if name_is_exec(n, "br") || name_is_exec(n, "cr") {
        push_str(&mut st.html, "<br>");
    } else if run_prop_exec(st, tag) {
    } else if name_is_exec(n, "jc") && st.in_p_pr {
        jc_exec(st, tag);
    }
}

fn start_exec(st: &mut HtmlBuild, tag: &XmlTag)
    ensures
        final(st)@ == start_step(old(st)@, *tag),
{
    let n = &tag.name;
    if name_is_exec(n, "tbl") {
        push_str(&mut st.html, "<table>");
    } else if name_is_exec(n, "tr") {
        push_str(&mut st.html, "<tr>");
    } else if name_is_exec(n, "tc") {
        push_str(&mut st.html, "<td>");
    } else if name_is_exec(n, "p") {
        st.p_opened = false;
        st.p_align = Vec::new();
        st.in_p_pr = false;
    } else if name_is_exec(n, "pPr") {
        st.in_p_pr = true;
    } else if name_is_exec(n, "jc") && st.in_p_pr {
        jc_exec(st, tag);
    } else if name_is_exec(n, "r") {
        open_p(st);
        st.in_r = true;
        st.in_r_pr = false;
        st.bold = false;
        st.italic = false;
        st.underline = false;
        st.sz = None;
        st.color = None;
    } else if name_is_exec(n, "rPr") && st.in_r {
        st.in_r_pr = true;
    } else if run_prop_exec(st, tag) {
    } else if name_is_exec(n, "t") {
        st.in_t = true;
    } else if name_is_exec(n, "tab") {
        open_p(st);
        push_str(&mut st.html, "&emsp;");
    } else if name_is_exec(n, "br") || name_is_exec(n, "cr") {
        push_str(&mut st.html, "<br>");
    }
}

fn end_exec(st: &mut HtmlBuild, n: &Vec<u8>)
    ensures
        final(st)@ == end_step(old(st)@, n@),
{
    if name_is_exec(n, "tbl") {
        push_str(&mut st.html, "</table>");
    } else if name_is_exec(n, "tr") {
        push_str(&mut st.html, "</tr>");
    } else if name_is_exec(n, "tc") {
        push_str(&mut st.html, "</td>");
    } else if name_is_exec(n, "pPr") {
        st.in_p_pr = false;
    } else if name_is_exec(n, "rPr") {
        st.in_r_pr = false;
    } else if name_is_exec(n, "r") {
        st.in_r = false;
    } else if name_is_exec(n, "t") {
        st.in_t = false;
    } else if name_is_exec(n, "p") {
        if !st.p_opened {
            push_str(&mut st.html, "<p>&nbsp;</p>");
        } else {
            push_str(&mut st.html, "</p>");
        }
        st.p_opened = false;
    }
}

fn half_points(sz: u32) -> (v: Vec<char>)
    ensures
        v@ == half_points_text(sz),
{
    let mut v = dec_chars((sz / 2) as u64);
    if sz % 2 == 1 {
        push_str(&mut v, ".5");
    } else {
        assert(v@ + Seq::<char>::empty() =~= v@);
    }
    v
}

fn span_exec(st: &HtmlBuild) -> (v: Vec<char>)
    ensures
        v@ == span_style(st@),
{
    let mut v: Vec<char> = Vec::new();
    let ghost e: Seq<char> = Seq::empty();
    if st.bold {
        push_str(&mut v, "font-weight:bold;");
    }
    let ghost a = v@;
    if st.italic {
        push_str(&mut v, "font-style:italic;");
    }
    let ghost b = v@;
    if st.underline {
        push_str(&mut v, "text-decoration:underline;");
    }
    let ghost c = v@;
    if let Some(z) = st.sz {
        push_str(&mut v, "font-size:");
        push_all(&mut v, &half_points(z));
        push_str(&mut v, "pt;");
    }
    let ghost d = v@;
    if let Some(col) = &st.color {
        push_str(&mut v, "color:#");
        push_all(&mut v, col);
        push_str(&mut v, ";");
    }
    assert(v@ =~= span_style(st@));
    v
}

fn text_exec(st: &mut HtmlBuild, u: &Option<String>)
    ensures
        final(st)@ == text_step(old(st)@, *u),
{
    if !st.in_t {
        return;
    }
    open_p(st);
    if let Some(s) = u {
        let br: Vec<char> = vec!['\n'];
        assert(br@ =~= seq!['\n']);
        let text = replace_exec(&xml_escape(&chars_of(s.as_str())), &br, &chars_of("<br>"));
        let span = span_exec(st);
        if span.len() == 0 {
            push_all(&mut st.html, &text);
        } else {
            let ghost h = st.html@;
            push_str(&mut st.html, "<span style=\"");
            push_all(&mut st.html, &span);
            push_str(&mut st.html, "\">");
            push_all(&mut st.html, &text);
            push_str(&mut st.html, "</span>");
            assert(st.html@ =~= h + ("<span style=\""@ + span@ + "\">"@ + text@ + "</span>"@));
        }
    }
}

/// The HTML of a document's main part.
pub fn document_xml_to_html(xml: &str) -> (html: String)
    ensures
        html@ == document_html_spec(xml@),
{
    let mut reader = xml_reader(xml);
    let mut st = HtmlBuild {
        html: Vec::new(),
        in_t: false,
        in_p_pr: false,
        in_r_pr: false,
        in_r: false,
        p_opened: false,
        p_align: Vec::new(),
        bold: false,
        italic: false,
        underline: false,
        sz: None,
        color: None,
    };
    assert(st@ == html_start());
    loop
        invariant
            xml_rest(reader).len() > 0,
            is_last(xml_rest(reader).last()),
            forall|i: int|
                0 <= i < xml_rest(reader).len() - 1 ==> !is_last(#[trigger] xml_rest(reader)[i]),
            document_html_spec(xml@) == html_fold(xml_rest(reader), st@),
        decreases xml_rest(reader).len(),
    {
        let ghost rest = xml_rest(reader);
        let ev = xml_next(&mut reader);
        proof {
            if rest.len() > 1 {
                assert(xml_rest(reader).last() == rest.last());
                assert forall|i: int| 0 <= i < xml_rest(reader).len() - 1 implies !is_last(
                    #[trigger] xml_rest(reader)[i],
                ) by {
                    assert(xml_rest(reader)[i] == rest[i + 1]);
                }
            }
        }
        match ev {
            XmlEvent::Start(t) => start_exec(&mut st, &t),
            XmlEvent::Empty(t) => empty_exec(&mut st, &t),
            XmlEvent::End(n) => end_exec(&mut st, &n),
            XmlEvent::Text(u) => text_exec(&mut st, &u),
            XmlEvent::Eof => {
                return string_of(&st.html);
            },
            XmlEvent::Other => {},
        }
        assert(rest.len() > 1);
    }
}

/// The HTML preview of a `.docx`: `Err` with the archive's error where it
/// cannot be read, a bad request where it has no `word/document.xml`.
pub fn docx_to_html(bytes: &[u8]) -> (r: Result<String, AppError>)
    ensures
        zip_text_result(bytes@, "word/document.xml"@) is Err ==> r is Err && is_internal(
            r->Err_0,
            zip_text_result(bytes@, "word/document.xml"@)->Err_0,
        ),
        zip_text_result(bytes@, "word/document.xml"@) == Ok::<Option<Seq<char>>, Seq<char>>(None)
            ==> r is Err && is_bad(r->Err_0, "в файле нет word/document.xml"@),
        zip_text_result(bytes@, "word/document.xml"@) is Ok && zip_text_result(
            bytes@,
            "word/document.xml"@,
        )->Ok_0 is Some ==> (r matches Ok(h) && h@ == document_html_spec(
            zip_text_result(bytes@, "word/document.xml"@)->Ok_0->Some_0,
        )),
{
    match crate::archive::zip_entry_text(bytes, "word/document.xml") {
        Err(m) => Err(AppError::Internal(m)),
        Ok(None) => Err(AppError::bad("в файле нет word/document.xml")),
        Ok(Some(xml)) => Ok(document_xml_to_html(xml.as_str())),
    }
}

/// Law: a Word paragraph alignment carries over to the preview. Where the
/// paragraph properties of a paragraph not yet opened hold `<w:jc w:val="v"/>`,
/// the paragraph opens as `<p style="text-align:center;">` for `center`,
/// `text-align:right;` for `right`, `text-align:justify;` for `both`, and as a
/// plain `<p>` for any other value.
pub proof fn law_word_alignment_is_previewed(st: HtmlState, tag: XmlTag, v: Seq<char>)
    requires
        st.in_p_pr,
        !st.in_r_pr,
        !st.p_opened,
        name_is(tag.name@, "jc"@),
        attr_spec(tag.attrs@, "val"@) == Some(v),
    ensures
        v == "center"@ ==> ensure_p(empty_step(st, tag)).html == st.html
            + "<p style=\"text-align:center;\">"@,
        v == "right"@ ==> ensure_p(empty_step(st, tag)).html == st.html
            + "<p style=\"text-align:right;\">"@,
        v == "both"@ ==> ensure_p(empty_step(st, tag)).html == st.html
            + "<p style=\"text-align:justify;\">"@,
        v != "center"@ && v != "right"@ && v != "both"@ ==> ensure_p(empty_step(st, tag)).html
            == st.html + "<p>"@,
{
    reveal_strlit("jc");
    reveal_strlit("p");
    reveal_strlit("tab");
    reveal_strlit("br");
    reveal_strlit("cr");
    assert(!name_is(tag.name@, "p"@));
    assert(!name_is(tag.name@, "tab"@));
    assert(tag.name@[0] as u32 == "jc"@[0] as u32);
    assert("jc"@[0] == 'j' && "br"@[0] == 'b' && "cr"@[0] == 'c');
    assert(!name_is(tag.name@, "br"@));
    assert(!name_is(tag.name@, "cr"@));
    assert(run_prop(st, tag) is None);
    assert(empty_step(st, tag) == jc_step(st, tag));
    lemma_css_openings();
}

/// The three styled openings, spelled out.
proof fn lemma_css_openings()
    ensures
        "<p style=\"text-align:center;\">"@ == "<p style=\""@ + "text-align:center;"@ + "\">"@,
        "<p style=\"text-align:right;\">"@ == "<p style=\""@ + "text-align:right;"@ + "\">"@,
        "<p style=\"text-align:justify;\">"@ == "<p style=\""@ + "text-align:justify;"@ + "\">"@,
        "text-align:center;"@.len() > 0,
        "text-align:right;"@.len() > 0,
        "text-align:justify;"@.len() > 0,
        "center"@ != "right"@,
        "center"@ != "both"@,
        "right"@ != "both"@,
{
    reveal_strlit("<p style=\"text-align:center;\">");
    reveal_strlit("<p style=\"text-align:right;\">");
    reveal_strlit("<p style=\"text-align:justify;\">");
    reveal_strlit("<p style=\"");
    reveal_strlit("\">");
    reveal_strlit("text-align:center;");
    reveal_strlit("text-align:right;");
    reveal_strlit("text-align:justify;");
    reveal_strlit("center");
    reveal_strlit("right");
    reveal_strlit("both");
    assert("center"@[0] == 'c' && "right"@[0] == 'r' && "both"@[0] == 'b');
    assert("<p style=\"text-align:center;\">"@ =~= "<p style=\""@ + "text-align:center;"@ + "\">"@);
    assert("<p style=\"text-align:right;\">"@ =~= "<p style=\""@ + "text-align:right;"@ + "\">"@);
    assert("<p style=\"text-align:justify;\">"@ =~= "<p style=\""@ + "text-align:justify;"@ + "\">"@);
}

} // verus!
