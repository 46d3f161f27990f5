//! What the HTTP interface computes beyond the stored records: the header a
//! downloaded original is sent with.
use vstd::prelude::*;

use crate::text::{char_from_ascii, chars_of, is_ascii_alnum, push_str, utf8_bytes};

verus! {

/// A character kept as it is in a file name sent in a header.
pub open spec fn plain_char(c: char) -> bool {
    is_ascii_alnum(c) || c == '.' || c == '-' || c == '_'
}

/// A name with every character but the plain ones replaced by `_`.
pub open spec fn ascii_name(name: Seq<char>) -> Seq<char> {
    name.map_values(
        |c: char|
            if plain_char(c) {
                c
            } else {
                '_'
            },
    )
}

/// An upper-case hexadecimal digit.
pub open spec fn hex_digit(n: nat) -> char {
    if n < 10 {
        (48 + n) as char
    } else {
        (55 + n) as char
    }
}

/// One byte of a name in percent-encoding: as it is where it is a plain
/// character, `%XX` otherwise.
pub open spec fn pct_byte(b: u8) -> Seq<char> {
    if plain_char(b as char) {
        seq![b as char]
    } else {
        seq!['%', hex_digit((b / 16) as nat), hex_digit((b % 16) as nat)]
    }
}

/// Bytes in percent-encoding.
pub open spec fn pct_encode(bytes: Seq<u8>) -> Seq<char>
    decreases bytes.len(),
{
    if bytes.len() == 0 {
        Seq::empty()
    } else {
        pct_byte(bytes[0]) + pct_encode(bytes.drop_first())
    }
}

/// The `Content-Disposition` of a download named `name`: an attachment, with a
/// plain ASCII file name and the UTF-8 name percent-encoded.
pub open spec fn content_disposition_spec(name: Seq<char>) -> Seq<char> {
    "attachment; filename=\""@ + ascii_name(name) + "\"; filename*=UTF-8''"@ + pct_encode(
        vstd::utf8::encode_utf8(name),
    )
}

fn plain(c: char) -> (b: bool)
    ensures
        b == plain_char(c),
{
    ('a' <= c && c <= 'z') || ('A' <= c && c <= 'Z') || ('0' <= c && c <= '9') || c == '.' || c
        == '-' || c == '_'
}

fn hex(n: u8) -> (c: char)
    requires
        n < 16,
    ensures
        c == hex_digit(n as nat),
{
    if n < 10 {
        char_from_ascii(48 + n as u32)
    } else {
        char_from_ascii(55 + n as u32)
    }
}

/// The `Content-Disposition` header of a download named `name`.
pub fn content_disposition(name: &str) -> (s: Vec<char>)
    ensures
        s@ == content_disposition_spec(name@),
{
    let chars = chars_of(name);
    let mut out: Vec<char> = chars_of("attachment; filename=\"");
    let ghost head = out@;
    let mut i: usize = 0;
    while i < chars.len()
        invariant
            i <= chars.len(),
            chars@ == name@,
            out@ == head + ascii_name(name@).take(i as int),
        decreases chars.len() - i,
    {
        let c = chars[i];
        out.push(if plain(c) {
            c
        } else {
            '_'
        });
        assert(ascii_name(name@).take(i + 1) =~= ascii_name(name@).take(i as int).push(
            ascii_name(name@)[i as int],
        ));
        i = i + 1;
    }
    assert(ascii_name(name@).take(i as int) =~= ascii_name(name@));
    push_str(&mut out, "\"; filename*=UTF-8''");
    let bytes = utf8_bytes(&crate::text::string_of(&chars));
    let ghost mid = out@;
    let ghost all = bytes@;
    let mut j: usize = 0;
    assert(all.skip(0) =~= all);
    while j < bytes.len()
        invariant
            j <= bytes.len(),
            all == bytes@,
            mid + pct_encode(all) == out@ + pct_encode(all.skip(j as int)),
        decreases bytes.len() - j,
    {
        let ghost before = out@;
        let b = bytes[j];
        assert(all.skip(j as int)[0] == b);
        assert(all.skip(j as int).drop_first() =~= all.skip(j + 1));
        if plain(b as char) {
            out.push(b as char);
        } else {
            out.push('%');
            out.push(hex(b / 16));
            out.push(hex(b % 16));
        }
        assert(out@ =~= before + pct_byte(b));
        j = j + 1;
    }
    assert(all.skip(j as int) =~= Seq::<u8>::empty());
    assert(out@ =~= content_disposition_spec(name@));
    out
}

/// A character that may stand in an HTTP header value as it is: visible ASCII
/// or a space.
pub open spec fn header_char(c: char) -> bool {
    ' ' <= c && c <= '~'
}

proof fn lemma_pct_encode_visible(bytes: Seq<u8>)
    ensures
        forall|i: int| 0 <= i < pct_encode(bytes).len() ==> header_char(#[trigger] pct_encode(bytes)[i]),
    decreases bytes.len(),
{
    if bytes.len() > 0 {
        lemma_pct_encode_visible(bytes.drop_first());
        let head = pct_byte(bytes[0]);
        let b = bytes[0];
        assert(b / 16 < 16 && b % 16 < 16) by (bit_vector);
        assert forall|i: int| 0 <= i < head.len() implies header_char(#[trigger] head[i]) by {
            if !plain_char(b as char) {
                assert(head[0] == '%');
            }
        }
        assert forall|i: int| 0 <= i < pct_encode(bytes).len() implies header_char(#[trigger] pct_encode(bytes)[i]) by {
            if i >= head.len() {
                assert(pct_encode(bytes)[i] == pct_encode(bytes.drop_first())[i - head.len()]);
            } else {
                assert(pct_encode(bytes)[i] == head[i]);
            }
        }
    }
}

/// Law: the `Content-Disposition` of any name is visible ASCII and spaces only,
/// so it is always a valid header value.
pub proof fn law_disposition_is_header_safe(name: Seq<char>)
    ensures
        forall|i: int| 0 <= i < content_disposition_spec(name).len() ==> header_char(
            #[trigger] content_disposition_spec(name)[i],
        ),
{
    reveal_strlit("attachment; filename=\"");
    reveal_strlit("\"; filename*=UTF-8''");
    let a = "attachment; filename=\""@;
    let b = ascii_name(name);
    let c = "\"; filename*=UTF-8''"@;
    let d = pct_encode(vstd::utf8::encode_utf8(name));
    lemma_pct_encode_visible(vstd::utf8::encode_utf8(name));
    assert(forall|i: int| 0 <= i < a.len() ==> header_char(#[trigger] a[i]));
    assert(forall|i: int| 0 <= i < c.len() ==> header_char(#[trigger] c[i]));
    assert(forall|i: int| 0 <= i < b.len() ==> header_char(#[trigger] b[i]));
    let s = a + b + c + d;
    assert(s == content_disposition_spec(name));
    assert forall|i: int| 0 <= i < s.len() implies header_char(#[trigger] s[i]) by {
        if i < a.len() {
            assert(s[i] == a[i]);
        } else if i < a.len() + b.len() {
            assert(s[i] == b[i - a.len()]);
        } else if i < a.len() + b.len() + c.len() {
            assert(s[i] == c[i - a.len() - b.len()]);
        } else {
            assert(s[i] == d[i - a.len() - b.len() - c.len()]);
        }
    }
}

} // verus!
