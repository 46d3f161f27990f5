//! XML events, read with the `quick-xml` crate and handed on as plain values.
use vstd::prelude::*;

use quick_xml::events::{BytesStart, Event};
use quick_xml::Reader;
use XmlEvent::{Empty, End, Eof, Other, Start, Text};

verus! {

#[verifier::external_type_specification]
#[verifier::external_body]
#[verifier::reject_recursive_types(R)]
pub struct ExXmlReader<R>(Reader<R>);

/// A start or empty tag: its local name, and the attributes that could be read,
/// in order, each as `(local name, raw value)`.
#[derive(Debug)]
pub struct XmlTag {
    pub name: Vec<u8>,
    pub attrs: Vec<(Vec<u8>, Vec<u8>)>,
}

/// One event of an XML reader.
#[derive(Debug)]
pub enum XmlEvent {
    Start(XmlTag),
    Empty(XmlTag),
    /// An end tag, by its local name.
    End(Vec<u8>),
    /// Text, unescaped; `None` where unescaping failed.
    Text(Option<String>),
    /// The end of the input, or an error of the reader: either ends the reading.
    Eof,
    /// Any other event (comments, declarations, CDATA, ...).
    Other,
}

/// The event ends the reading.
pub open spec fn is_last(e: XmlEvent) -> bool {
    e is Eof
}

/// The events a reader still gives, up to and including the first end of
/// input or error.
pub uninterp spec fn xml_rest(r: Reader<&[u8]>) -> Seq<XmlEvent>;

/// The events that reading `xml` gives, up to and including the first end of
/// input or error.
pub uninterp spec fn xml_events_of(xml: Seq<char>) -> Seq<XmlEvent>;

/// `Reader::from_str` on `xml`, with text not trimmed. The events it will give
/// are named; that they end with the first end of input or error, and that the
/// input is not read forever, is what the reader does on any input.
#[verifier::external_body]
pub(crate) fn xml_reader(xml: &str) -> (r: Reader<&[u8]>)
    ensures
        xml_rest(r) == xml_events_of(xml@),
        xml_rest(r).len() > 0,
        is_last(xml_rest(r).last()),
        forall|i: int| 0 <= i < xml_rest(r).len() - 1 ==> !is_last(#[trigger] xml_rest(r)[i]),
{
    let mut reader = Reader::from_str(xml);
    reader.config_mut().trim_text(false);
    reader
}

/// `Reader::read_event`, with the event converted to plain values (an error
/// as the end). Short of the end, the reader goes on with the events after
/// this one; what a finished reader gives afterwards (it repeats the end of
/// input, and after some errors it reads on) is not stated.
#[verifier::external_body]
pub(crate) fn xml_next(r: &mut Reader<&[u8]>) -> (e: XmlEvent)
    requires
        xml_rest(*old(r)).len() > 0,
    ensures
        e == xml_rest(*old(r))[0],
        !is_last(e) ==> xml_rest(*final(r)) == xml_rest(*old(r)).drop_first(),
{
    let tag = |e: BytesStart| XmlTag {
        name: e.local_name().as_ref().to_vec(),
        attrs: e.attributes().with_checks(false).flatten().map(|a| (a.key.local_name().as_ref().to_vec(), a.value.to_vec())).collect(),
    };
    match r.read_event() {
        Ok(Event::Start(e)) => Start(tag(e)),
        Ok(Event::Empty(e)) => Empty(tag(e)),
        Ok(Event::End(e)) => End(e.local_name().as_ref().to_vec()),
        Ok(Event::Text(t)) => Text(t.unescape().ok().map(String::from)),
        Ok(Event::Eof) | Err(_) => Eof,
        _ => Other,
    }
}

/// The bytes `b` spell the ASCII text `s`.
pub open spec fn name_is(b: Seq<u8>, s: Seq<char>) -> bool {
    b.len() == s.len() && forall|i: int| 0 <= i < b.len() ==> b[i] as u32 == s[i] as u32
}

pub fn name_is_exec(b: &Vec<u8>, s: &str) -> (r: bool)
    ensures
        r == name_is(b@, s@),
{
    let v = crate::text::chars_of(s);
    if b.len() != v.len() {
        return false;
    }
    let mut i: usize = 0;
    while i < b.len()
        invariant
            i <= b.len() == v.len(),
            v@ == s@,
            forall|k: int| 0 <= k < i ==> b@[k] as u32 == s@[k] as u32,
        decreases b.len() - i,
    {
        if b[i] as u32 != v[i] as u32 {
            return false;
        }
        i = i + 1;
    }
    true
}

/// The value of the first attribute called `key`, read as UTF-8 with bad
/// sequences replaced.
pub open spec fn attr_spec(attrs: Seq<(Vec<u8>, Vec<u8>)>, key: Seq<char>) -> Option<Seq<char>>
    decreases attrs.len(),
{
    if attrs.len() == 0 {
        None
    } else if name_is(attrs[0].0@, key) {
        Some(crate::text::lossy_utf8(attrs[0].1@))
    } else {
        attr_spec(attrs.drop_first(), key)
    }
}

/// The value of the first attribute of `tag` called `key`.
pub fn attr(tag: &XmlTag, key: &str) -> (r: Option<String>)
    ensures
        r matches Some(v) ==> attr_spec(tag.attrs@, key@) == Some(v@),
        r is None ==> attr_spec(tag.attrs@, key@) is None,
{
    let mut i: usize = 0;
    assert(tag.attrs@.skip(0) =~= tag.attrs@);
    while i < tag.attrs.len()
        invariant
            i <= tag.attrs.len(),
            attr_spec(tag.attrs@, key@) == attr_spec(tag.attrs@.skip(i as int), key@),
        decreases tag.attrs.len() - i,
    {
        assert(tag.attrs@.skip(i as int).drop_first() =~= tag.attrs@.skip(i + 1));
        assert(tag.attrs@.skip(i as int)[0] == tag.attrs@[i as int]);
        if name_is_exec(&tag.attrs[i].0, key) {
            return Some(crate::text::utf8_lossy(tag.attrs[i].1.as_slice()));
        }
        i = i + 1;
    }
    None
}

} // verus!
