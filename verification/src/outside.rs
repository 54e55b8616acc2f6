//! Everything the library takes from other crates, or from parts of the
//! standard library without a specification: thin wrappers whose contracts are
//! believed, not proved.
use vstd::prelude::*;
use base64::Engine;
use quick_xml::events::Event;
use crate::xml::XmlEvent::{CData, Close, Open, Other, Text};
use crate::xml::{XmlEvent, XmlItem};

verus! {

/// `String::push` appends the given character to the end of the string.
pub assume_specification[ String::push ](s: &mut String, c: char)
    ensures
        final(s)@ == old(s)@.push(c),
;

/// `String::from_utf8` accepts exactly the valid UTF-8 and keeps the bytes.
#[verifier::external_body]
pub(crate) fn utf8_string(bytes: Vec<u8>) -> (r: Option<String>)
    ensures
        r is Some <==> vstd::utf8::valid_utf8(bytes@),
        match r {
            Some(s) => s@ == vstd::utf8::decode_utf8(bytes@),
            None => true,
        },
{
    String::from_utf8(bytes).ok()
}

/// What `String::from_utf8_lossy` makes of a sequence of bytes: each invalid
/// part is replaced by U+FFFD.
pub uninterp spec fn utf8_lossy(bytes: Seq<u8>) -> Seq<char>;

/// `String::from_utf8_lossy`, which keeps valid UTF-8 as it is.
#[verifier::external_body]
pub(crate) fn lossy_string(bytes: &Vec<u8>) -> (s: String)
    ensures
        s@ == utf8_lossy(bytes@),
        vstd::utf8::valid_utf8(bytes@) ==> s@ == vstd::utf8::decode_utf8(bytes@),
{
    String::from_utf8_lossy(bytes).to_string()
}

/// What `str::to_lowercase` makes of a text by Unicode's rules.
pub uninterp spec fn lowercase(s: Seq<char>) -> Seq<char>;

/// `str::to_lowercase`.
#[verifier::external_body]
pub(crate) fn to_lowercase(s: &str) -> (r: String)
    ensures
        r@ == lowercase(s@),
{
    s.to_lowercase()
}

/// What `zstd::decode_all` unpacks from a sequence of bytes, or nothing where
/// they are no complete Zstandard frames.
pub uninterp spec fn zstd_unpacked(bytes: Seq<u8>) -> Option<Seq<u8>>;

/// `zstd::decode_all` on a slice: the unpacked bytes, or nothing on an error.
#[verifier::external_body]
pub(crate) fn zstd_decode(bytes: &Vec<u8>) -> (r: Option<Vec<u8>>)
    ensures
        match r {
            Some(data) => zstd_unpacked(bytes@) == Some(data@),
            None => zstd_unpacked(bytes@) is None,
        },
{
    zstd::decode_all(bytes.as_slice()).ok()
}

/// The MD5 digest of a sequence of bytes.
pub uninterp spec fn md5_digest(bytes: Seq<u8>) -> Seq<u8>;

/// `md5::compute`, whose digest has sixteen bytes.
#[verifier::external_body]
pub(crate) fn md5_bytes(bytes: &[u8]) -> (r: Vec<u8>)
    ensures
        r@ == md5_digest(bytes@),
        r@.len() == 16,
{
    md5::compute(bytes).0.to_vec()
}

/// The pairs, in the order of their keys, of the JSON object of strings that a
/// text holds, or nothing where it holds no such object. Of several pairs with
/// one key the last counts.
pub uninterp spec fn json_strings(text: Seq<char>) -> Option<Seq<(Seq<char>, Seq<char>)>>;

/// `serde_json::from_str` into an ordered map from strings to strings.
#[verifier::external_body]
pub(crate) fn parse_json_strings(text: &str) -> (r: Option<Vec<(String, String)>>)
    ensures
        match r {
            Some(pairs) => json_strings(text@) == Some(
                Seq::new(pairs@.len(), |i: int| (pairs@[i].0@, pairs@[i].1@)),
            ),
            None => json_strings(text@) is None,
        },
{
    let map: std::collections::BTreeMap<String, String> = serde_json::from_str(text).ok()?;
    Some(map.into_iter().collect())
}

/// What the debug format of the standard library shows for a list of strings.
pub uninterp spec fn debug_text(list: Seq<Seq<char>>) -> Seq<char>;

/// `format!` with the debug format on a list of strings.
#[verifier::external_body]
pub(crate) fn debug_list(list: &Vec<String>) -> (r: String)
    ensures
        r@ == debug_text(Seq::new(list@.len(), |i: int| list@[i]@)),
{
    format!("{:?}", list)
}

/// What the standard engine of `base64` decodes from a text, or the text of
/// the error that it reports.
pub uninterp spec fn base64_decoded(text: Seq<char>) -> Result<Seq<u8>, Seq<char>>;

/// `base64::engine::general_purpose::STANDARD.decode`, an error by its text.
#[verifier::external_body]
pub(crate) fn base64_decode(text: &str) -> (r: Result<Vec<u8>, String>)
    ensures
        match r {
            Ok(data) => base64_decoded(text@) == Ok::<Seq<u8>, Seq<char>>(data@),
            Err(e) => base64_decoded(text@) == Err::<Seq<u8>, Seq<char>>(e@),
        },
{
    base64::engine::general_purpose::STANDARD.decode(text).map_err(|e| e.to_string())
}

/// The XML reader of `quick_xml`.
#[verifier::external_type_specification]
#[verifier::external_body]
#[verifier::reject_recursive_types(R)]
pub struct ExReader<R>(quick_xml::Reader<R>);

/// The events that `quick_xml` reads from a text, in order, up to the end of
/// the text or the first error.
pub uninterp spec fn xml_items(text: Seq<char>) -> Seq<XmlItem>;

/// The events that a reader has still to give, up to the end of its input or
/// the first error.
pub uninterp spec fn unread(reader: quick_xml::Reader<&[u8]>) -> Seq<XmlItem>;

/// `Reader::from_str`: a reader at the start of `xml`.
#[verifier::external_body]
pub(crate) fn open_xml<'a>(xml: &'a str) -> (r: quick_xml::Reader<&'a [u8]>)
    ensures
        unread(r) == xml_items(xml@),
{
    quick_xml::Reader::from_str(xml)
}

/// `Reader::read_event`: the next event, or nothing at the end of the
/// input and on an error. A start tag comes with its name and, in order, the
/// raw key and value of each attribute, nothing standing for one that does
/// not parse; a text comes unescaped, nothing standing for one that cannot be.
#[verifier::external_body]
pub(crate) fn next_event(reader: &mut quick_xml::Reader<&[u8]>) -> (r: Option<XmlEvent>)
    ensures
        match r {
            Some(e) => {
                &&& unread(*old(reader)).len() > 0
                &&& e@ == unread(*old(reader))[0]
                &&& unread(*final(reader)) == unread(*old(reader)).skip(1)
            },
            None => unread(*old(reader)).len() == 0,
        },
{
    let event = reader.read_event().ok()?;
    let empty = matches!(event, Event::Empty(_));
    Some(match event {
        Event::Start(e) | Event::Empty(e) => Open {
            name: e.name().0.to_vec(),
            attrs: e.attributes().map(|a| a.ok().map(|a| (a.key.0.to_vec(), a.value.to_vec()))).collect(),
            empty,
        },
        Event::Text(e) => Text(e.unescape().ok().map(String::from)),
        Event::CData(e) => CData(e.to_vec()),
        Event::End(e) => Close(e.name().0.to_vec()),
        Event::Eof => return None,
        _ => Other,
    })
}

} // verus!
