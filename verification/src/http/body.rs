//! What answers hold.
use crate::paths::extension;
use crate::text::{bytes_are_written_differently, hex_byte};
use vstd::prelude::*;

verus! {

/// A character of a text in JSON.
pub open spec fn json_char(c: char) -> Seq<char> {
    if c == '"' {
        seq!['\\', '"']
    } else if c == '\\' {
        seq!['\\', '\\']
    } else if c == '\u{8}' {
        seq!['\\', 'b']
    } else if c == '\u{c}' {
        seq!['\\', 'f']
    } else if c == '\n' {
        seq!['\\', 'n']
    } else if c == '\r' {
        seq!['\\', 'r']
    } else if c == '\t' {
        seq!['\\', 't']
    } else if (c as u32) <= 31 {
        seq!['\\', 'u', '0', '0'] + hex_byte(c as u8)
    } else {
        seq![c]
    }
}

/// A text in JSON, without the quotes around it.
pub open spec fn json_chars(text: Seq<char>) -> Seq<char>
    decreases text.len(),
{
    if text.len() == 0 {
        Seq::empty()
    } else {
        json_chars(text.drop_last()) + json_char(text.last())
    }
}

/// The body of an answer that says one thing.
pub open spec fn detail_body(detail: Seq<char>) -> Seq<char> {
    "{\"detail\":\""@ + json_chars(detail) + "\"}"@
}

/// `serde_json::Value` writes an object with one text in it without white
/// space, and escapes quotes, backslashes and control characters of the text.
#[verifier::external_body]
pub(crate) fn write_detail(detail: &str) -> (out: String)
    ensures
        out@ == detail_body(detail@),
{
    let mut object = serde_json::Map::new();
    object.insert("detail".to_owned(), serde_json::Value::from(detail));
    serde_json::Value::Object(object).to_string()
}

/// The body of an answer that says one thing.
pub fn json_detail(detail: &str) -> (out: String)
    ensures
        out@ == detail_body(detail@),
{
    write_detail(detail)
}

/// The type that `mime_guess::from_path` guesses first for a path, or
/// `application/octet-stream`.
pub uninterp spec fn mime_type(path: Seq<char>) -> Seq<char>;

/// `mime_guess::from_path` guesses types of content by the extension of a path
/// alone, and `first_or_octet_stream` takes the first one, or
/// `application/octet-stream` where there is none.
#[verifier::external_body]
pub(crate) fn guess_type(path: &str) -> (out: String)
    ensures
        out@ == mime_type(path@),
        extension(path@) is None ==> out@ == "application/octet-stream"@,
{
    mime_guess::from_path(path).first_or_octet_stream().as_ref().to_owned()
}

/// An asset of the pages, with its type.
#[derive(Debug)]
pub struct Asset {
    pub content_type: String,
    pub content: Vec<u8>,
}

/// The answer to a request for an asset: its content with its type, or nothing.
pub fn serve_embedded(path: &str, content: Option<Vec<u8>>) -> (out: Option<Asset>)
    ensures
        match content {
            Some(bytes) => out matches Some(asset) && asset.content == bytes
                && asset.content_type@ == mime_type(path@),
            None => out is None,
        },
{
    match content {
        Some(content) => Some(Asset { content_type: guess_type(path), content }),
        None => None,
    }
}

// ── Laws ─────────────────────────────────────────────────────────────────────

/// Texts without quotes, backslashes and control characters stand in JSON as they
/// are.
pub proof fn plain_texts_stand_as_they_are(text: Seq<char>)
    requires
        forall|i: int|
            0 <= i < text.len() ==> (#[trigger] text[i]) >= ' ' && text[i] != '"' && text[i] != '\\',
    ensures
        json_chars(text) == text,
    decreases text.len(),
{
    if text.len() > 0 {
        let rest = text.drop_last();
        assert forall|i: int| 0 <= i < rest.len() implies (#[trigger] rest[i]) >= ' ' && rest[i]
            != '"' && rest[i] != '\\' by {
            assert(rest[i] == text[i]);
        }
        plain_texts_stand_as_they_are(rest);
        assert(text[text.len() - 1] >= ' ');
        lemma_plain_char(text.last());
        assert(rest + seq![text.last()] =~= text);
    } else {
        assert(text =~= Seq::<char>::empty());
    }
}

proof fn lemma_plain_char(c: char)
    requires
        c >= ' ' && c != '"' && c != '\\',
    ensures
        json_char(c) == seq![c],
{
    assert(c as int >= 32);
    assert(c as u32 == c as int);
}

/// Different characters stand differently in JSON, a backslash begins what does not
/// stand for itself, and no control character is left.
pub proof fn characters_are_escaped(a: char, b: char)
    ensures
        json_char(a) == json_char(b) <==> a == b,
        json_char(a) != seq![a] ==> json_char(a).len() > 1 && json_char(a)[0] == '\\',
        a == '"' || a == '\\' || a as int <= 31 ==> json_char(a) != seq![a],
        forall|k: int| 0 <= k < json_char(a).len() ==> (#[trigger] json_char(a)[k]) >= ' ',
{
    let x = json_char(a);
    let y = json_char(b);
    if a as int <= 31 {
        assert(hex_byte(a as u8)[0] >= ' ' && hex_byte(a as u8)[1] >= ' ');
    }
    assert(a as u32 == a as int);
    if a == '"' || a == '\\' || a as int <= 31 {
        assert(x.len() > 1);
        assert(seq![a].len() == 1);
    }
    if x == y && a != b {
        assert(x.len() == y.len());
        assert(x[0] == y[0]);
        if x.len() > 1 {
            assert(x[1] == y[1]);
        }
        if x.len() == 6 {
            assert(x.skip(4) =~= hex_byte(a as u8));
            assert(y.skip(4) =~= hex_byte(b as u8));
            bytes_are_written_differently(a as u8, b as u8);
        }
    }
}

/// A text is escaped character by character.
pub proof fn texts_are_escaped_one_by_one(a: Seq<char>, b: Seq<char>)
    ensures
        json_chars(a + b) == json_chars(a) + json_chars(b),
    decreases b.len(),
{
    if b.len() == 0 {
        assert(a + b =~= a);
        assert(json_chars(a) + json_chars(b) =~= json_chars(a));
    } else {
        assert((a + b).drop_last() =~= a + b.drop_last());
        texts_are_escaped_one_by_one(a, b.drop_last());
        assert(json_chars(a + b) =~= json_chars(a) + json_chars(b));
    }
}

} // verus!
