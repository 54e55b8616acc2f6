//! Attribute values and element texts of small XML documents.
use vstd::prelude::*;
use vstd::utf8::*;
use crate::outside;
use crate::text;

verus! {

/// One event of an XML document.
#[derive(Debug, Clone)]
pub enum XmlEvent {
    /// A start tag, or an empty-element tag, with its attributes; an attribute
    /// that does not parse is `None`.
    Open { name: Vec<u8>, attrs: Vec<Option<(Vec<u8>, Vec<u8>)>>, empty: bool },
    /// An end tag.
    Close(Vec<u8>),
    /// Character data, unescaped; `None` where an escape is not known.
    Text(Option<String>),
    /// A CDATA section.
    CData(Vec<u8>),
    /// Anything else: comments, declarations, processing instructions.
    Other,
}

/// An XML event as a mathematical value.
pub enum XmlItem {
    Open { name: Seq<u8>, attrs: Seq<Option<(Seq<u8>, Seq<u8>)>>, empty: bool },
    Close { name: Seq<u8> },
    Text { text: Option<Seq<char>> },
    CData { bytes: Seq<u8> },
    Other,
}

/// One attribute as a mathematical value.
pub open spec fn attr_item(a: Option<(Vec<u8>, Vec<u8>)>) -> Option<(Seq<u8>, Seq<u8>)> {
    match a {
        Some((k, v)) => Some((k@, v@)),
        None => None,
    }
}

impl View for XmlEvent {
    type V = XmlItem;

    open spec fn view(&self) -> XmlItem {
        match self {
            XmlEvent::Open { name, attrs, empty } => XmlItem::Open {
                name: name@,
                attrs: Seq::new(attrs@.len(), |i: int| attr_item(attrs@[i])),
                empty: *empty,
            },
            XmlEvent::Close(name) => XmlItem::Close { name: name@ },
            XmlEvent::Text(text) => XmlItem::Text { text: text::opt_view(*text) },
            XmlEvent::CData(bytes) => XmlItem::CData { bytes: bytes@ },
            XmlEvent::Other => XmlItem::Other,
        }
    }
}

/// The events of a list as mathematical values.
pub open spec fn items(events: Seq<XmlEvent>) -> Seq<XmlItem> {
    Seq::new(events.len(), |i: int| events[i]@)
}

/// The text that valid UTF-8 encodes.
pub open spec fn utf8_text(bytes: Seq<u8>) -> Option<Seq<char>> {
    if valid_utf8(bytes) {
        Some(decode_utf8(bytes))
    } else {
        None
    }
}

/// The raw value of the first attribute named `key`.
pub open spec fn attr_raw(attrs: Seq<Option<(Seq<u8>, Seq<u8>)>>, key: Seq<u8>) -> Option<Seq<u8>>
    decreases attrs.len(),
{
    if attrs.len() == 0 {
        None
    } else {
        match attrs[0] {
            Some((k, v)) if k == key => Some(v),
            _ => attr_raw(attrs.skip(1), key),
        }
    }
}

/// The value of the attribute `key` in the first start tag named `tag` that
/// has it.
pub open spec fn attr_in(events: Seq<XmlItem>, tag: Seq<u8>, key: Seq<u8>) -> Option<Seq<char>>
    decreases events.len(),
{
    if events.len() == 0 {
        None
    } else {
        match events[0] {
            XmlItem::Open { name, attrs, empty } if name == tag && attr_raw(attrs, key) is Some => {
                utf8_text(attr_raw(attrs, key)->0)
            },
            _ => attr_in(events.skip(1), tag, key),
        }
    }
}

/// The first piece of text after a start tag named `tag` and before its end
/// tag; `inside` tells whether such a start tag is open.
pub open spec fn text_in(events: Seq<XmlItem>, tag: Seq<u8>, inside: bool) -> Option<Seq<char>>
    decreases events.len(),
{
    if events.len() == 0 {
        None
    } else {
        let rest = events.skip(1);
        match events[0] {
            XmlItem::Open { name, attrs, empty } => text_in(
                rest,
                tag,
                inside || (!empty && name == tag),
            ),
            XmlItem::Close { name } => text_in(rest, tag, inside && name != tag),
            XmlItem::Text { text } => if inside {
                text
            } else {
                text_in(rest, tag, inside)
            },
            XmlItem::CData { bytes } => if inside {
                utf8_text(bytes)
            } else {
                text_in(rest, tag, inside)
            },
            XmlItem::Other => text_in(rest, tag, inside),
        }
    }
}

/// Whether two byte strings are equal.
fn same_bytes(a: &Vec<u8>, b: &[u8]) -> (r: bool)
    ensures
        r == (a@ == b@),
{
    if a.len() != b.len() {
        return false;
    }
    let mut i: usize = 0;
    while i < a.len()
        invariant
            i <= a@.len(),
            a@.len() == b@.len(),
            forall|j: int| 0 <= j < i ==> a@[j] == b@[j],
        decreases a@.len() - i,
    {
        if a[i] != b[i] {
            return false;
        }
        i = i + 1;
    }
    assert(a@ =~= b@);
    true
}

/// A copy of a byte string.
fn copy_bytes(a: &Vec<u8>) -> (r: Vec<u8>)
    ensures
        r@ == a@,
{
    let mut r: Vec<u8> = Vec::new();
    let mut i: usize = 0;
    while i < a.len()
        invariant
            i <= a@.len(),
            r@ == a@.take(i as int),
        decreases a@.len() - i,
    {
        r.push(a[i]);
        assert(a@.take(i as int).push(a@[i as int]) =~= a@.take(i + 1));
        i = i + 1;
    }
    assert(a@.take(i as int) =~= a@);
    r
}

/// The raw value of the first attribute named `key`.
fn find_raw(attrs: &Vec<Option<(Vec<u8>, Vec<u8>)>>, key: &[u8]) -> (r: Option<Vec<u8>>)
    ensures
        (match r {
            Some(v) => Some(v@),
            None => None,
        }) == attr_raw(Seq::new(attrs@.len(), |i: int| attr_item(attrs@[i])), key@),
{
    let ghost all = Seq::new(attrs@.len(), |i: int| attr_item(attrs@[i]));
    let mut i: usize = 0;
    assert(all.skip(0) =~= all);
    while i < attrs.len()
        invariant
            i <= attrs@.len(),
            all == Seq::new(attrs@.len(), |i: int| attr_item(attrs@[i])),
            attr_raw(all, key@) == attr_raw(all.skip(i as int), key@),
        decreases attrs@.len() - i,
    {
        assert(all.skip(i as int)[0] == attr_item(attrs@[i as int]));
        assert(all.skip(i as int).skip(1) =~= all.skip(i + 1));
        if let Some((k, v)) = &attrs[i] {
            if same_bytes(k, key) {
                return Some(copy_bytes(v));
            }
        }
        i = i + 1;
    }
    None
}

/// The value of the attribute `attr` in the first start tag of `events` that
/// is named `tag` and has it.
pub fn attr_in_events(events: &Vec<XmlEvent>, tag: &str, attr: &str) -> (r: Option<String>)
    ensures
        text::opt_view(r) == attr_in(items(events@), encode_utf8(tag@), encode_utf8(attr@)),
{
    let tag_bytes = tag.as_bytes();
    let attr_bytes = attr.as_bytes();
    let ghost all = items(events@);
    let mut i: usize = 0;
    assert(all.skip(0) =~= all);
    while i < events.len()
        invariant
            i <= events@.len(),
            all == items(events@),
            tag_bytes@ == encode_utf8(tag@),
            attr_bytes@ == encode_utf8(attr@),
            attr_in(all, tag_bytes@, attr_bytes@) == attr_in(
                all.skip(i as int),
                tag_bytes@,
                attr_bytes@,
            ),
        decreases events@.len() - i,
    {
        assert(all.skip(i as int)[0] == events@[i as int]@);
        assert(all.skip(i as int).skip(1) =~= all.skip(i + 1));
        if let XmlEvent::Open { name, attrs, empty } = &events[i] {
            if same_bytes(name, tag_bytes) {
                if let Some(raw) = find_raw(attrs, attr_bytes) {
                    return outside::utf8_string(raw);
                }
            }
        }
        i = i + 1;
    }
    None
}

/// The first piece of text of `events` inside an element named `tag`.
pub fn text_in_events(events: &Vec<XmlEvent>, tag: &str) -> (r: Option<String>)
    ensures
        text::opt_view(r) == text_in(items(events@), encode_utf8(tag@), false),
{
    let tag_bytes = tag.as_bytes();
    let ghost all = items(events@);
    let mut inside: bool = false;
    let mut i: usize = 0;
    assert(all.skip(0) =~= all);
    while i < events.len()
        invariant
            i <= events@.len(),
            all == items(events@),
            tag_bytes@ == encode_utf8(tag@),
            text_in(all, tag_bytes@, false) == text_in(all.skip(i as int), tag_bytes@, inside),
        decreases events@.len() - i,
    {
        assert(all.skip(i as int)[0] == events@[i as int]@);
        assert(all.skip(i as int).skip(1) =~= all.skip(i + 1));
        match &events[i] {
            XmlEvent::Open { name, attrs, empty } => {
                if !*empty && same_bytes(name, tag_bytes) {
                    inside = true;
                }
            },
            XmlEvent::Close(name) => {
                if same_bytes(name, tag_bytes) {
                    inside = false;
                }
            },
            XmlEvent::Text(text) => {
                if inside {
                    return text.clone();
                }
            },
            XmlEvent::CData(bytes) => {
                if inside {
                    return outside::utf8_string(copy_bytes(bytes));
                }
            },
            XmlEvent::Other => {},
        }
        i = i + 1;
    }
    None
}

/// Reads all events of `xml`, up to its end or the first error.
pub fn read_events(xml: &str) -> (r: Vec<XmlEvent>)
    ensures
        items(r@) == outside::xml_items(xml@),
{
    let mut reader = outside::open_xml(xml);
    let mut r: Vec<XmlEvent> = Vec::new();
    let ghost all = outside::xml_items(xml@);
    assert(items(r@) + all =~= all);
    loop
        invariant_except_break
            items(r@) + outside::unread(reader) == all,
        ensures
            items(r@) == all,
        decreases outside::unread(reader).len(),
    {
        let ghost before = r@;
        let ghost left = outside::unread(reader);
        match outside::next_event(&mut reader) {
            Some(e) => {
                r.push(e);
                assert(items(r@) =~= items(before).push(e@));
                assert(items(before) + left =~= items(r@) + left.skip(1));
            },
            None => {
                assert(items(r@) + left =~= items(r@));
                break;
            },
        }
    }
    r
}

/// The value of the attribute `attr` in the first start tag of `xml` that is
/// named `tag` and has it.
pub fn extract_xml_attr(xml: &str, tag: &str, attr: &str) -> (r: Option<String>)
    ensures
        text::opt_view(r) == attr_in(
            outside::xml_items(xml@),
            encode_utf8(tag@),
            encode_utf8(attr@),
        ),
{
    attr_in_events(&read_events(xml), tag, attr)
}

/// The first piece of text of `xml` inside an element named `tag`.
pub fn extract_xml_text(xml: &str, tag: &str) -> (r: Option<String>)
    ensures
        text::opt_view(r) == text_in(outside::xml_items(xml@), encode_utf8(tag@), false),
{
    text_in_events(&read_events(xml), tag)
}

// ---------------------------------------------------------------------
// Laws
// ---------------------------------------------------------------------

/// Whether an event is a start tag of a name, empty or not, with an attribute of
/// a name.
pub open spec fn carries(e: XmlItem, tag: Seq<u8>, key: Seq<u8>) -> bool {
    e matches XmlItem::Open { name, attrs, empty } && name == tag && exists|j: int|
        0 <= j < attrs.len() && (#[trigger] attrs[j]) is Some && (attrs[j]->0).0 == key
}

/// Whether the first start tag of a document that has a name and an attribute
/// gives that attribute a value, at its first place.
pub open spec fn gives_attr(doc: Seq<XmlItem>, tag: Seq<u8>, key: Seq<u8>, value: Seq<u8>) -> bool {
    exists|k: int, j: int| #[trigger] gives_attr_at(doc, tag, key, value, k, j)
}

/// The same, where the places of the tag and of the attribute are told.
pub open spec fn gives_attr_at(
    doc: Seq<XmlItem>,
    tag: Seq<u8>,
    key: Seq<u8>,
    value: Seq<u8>,
    k: int,
    j: int,
) -> bool {
    &&& 0 <= k < doc.len()
    &&& doc[k] matches XmlItem::Open { name, attrs, empty } && name == tag && 0 <= j < attrs.len()
        && attrs[j] == Some((key, value)) && forall|i: int|
        0 <= i < j ==> !((#[trigger] attrs[i]) is Some && (attrs[i]->0).0 == key)
    &&& forall|i: int| 0 <= i < k ==> !carries(#[trigger] doc[i], tag, key)
}

/// Whether no start tag of a document has a name and an attribute.
pub open spec fn gives_no_attr(doc: Seq<XmlItem>, tag: Seq<u8>, key: Seq<u8>) -> bool {
    forall|i: int| 0 <= i < doc.len() ==> !carries(#[trigger] doc[i], tag, key)
}

proof fn lemma_raw_at(attrs: Seq<Option<(Seq<u8>, Seq<u8>)>>, key: Seq<u8>, value: Seq<u8>, j: int)
    requires
        0 <= j < attrs.len(),
        attrs[j] == Some((key, value)),
        forall|i: int| 0 <= i < j ==> !((#[trigger] attrs[i]) is Some && (attrs[i]->0).0 == key),
    ensures
        attr_raw(attrs, key) == Some(value),
    decreases attrs.len(),
{
    if j > 0 {
        let rest = attrs.skip(1);
        assert(!(attrs[0] is Some && (attrs[0]->0).0 == key));
        assert forall|i: int| 0 <= i < j - 1 implies !((#[trigger] rest[i]) is Some && (rest[i]->0).0
            == key) by {
            assert(rest[i] == attrs[i + 1]);
        }
        lemma_raw_at(rest, key, value, j - 1);
    }
}

proof fn lemma_raw_none(attrs: Seq<Option<(Seq<u8>, Seq<u8>)>>, key: Seq<u8>)
    requires
        forall|i: int|
            0 <= i < attrs.len() ==> !((#[trigger] attrs[i]) is Some && (attrs[i]->0).0 == key),
    ensures
        attr_raw(attrs, key) is None,
    decreases attrs.len(),
{
    if attrs.len() > 0 {
        let rest = attrs.skip(1);
        assert(!(attrs[0] is Some && (attrs[0]->0).0 == key));
        assert forall|i: int| 0 <= i < rest.len() implies !((#[trigger] rest[i]) is Some
            && (rest[i]->0).0 == key) by {
            assert(rest[i] == attrs[i + 1]);
        }
        lemma_raw_none(rest, key);
    }
}

proof fn lemma_carries_nothing(e: XmlItem, tag: Seq<u8>, key: Seq<u8>)
    requires
        !carries(e, tag, key),
    ensures
        e matches XmlItem::Open { name, attrs, empty } ==> !(name == tag && attr_raw(attrs, key) is Some),
{
    if let XmlItem::Open { name, attrs, empty } = e {
        if name == tag {
            lemma_raw_none(attrs, key);
        }
    }
}

proof fn lemma_attr_at(
    doc: Seq<XmlItem>,
    tag: Seq<u8>,
    key: Seq<u8>,
    value: Seq<u8>,
    k: int,
    j: int,
)
    requires
        gives_attr_at(doc, tag, key, value, k, j),
    ensures
        attr_in(doc, tag, key) == utf8_text(value),
    decreases k,
{
    if k == 0 {
        if let XmlItem::Open { name, attrs, empty } = doc[0] {
            lemma_raw_at(attrs, key, value, j);
        }
    } else {
        let rest = doc.skip(1);
        assert(!carries(doc[0], tag, key));
        lemma_carries_nothing(doc[0], tag, key);
        assert(rest[k - 1] == doc[k]);
        assert forall|i: int| 0 <= i < k - 1 implies !carries(#[trigger] rest[i], tag, key) by {
            assert(rest[i] == doc[i + 1]);
        }
        lemma_attr_at(rest, tag, key, value, k - 1, j);
    }
}

/// An attribute is read from the first tag of its name that has it, whatever
/// else stands in the document or in the tag.
pub proof fn law_attribute_is_read(
    doc: Seq<XmlItem>,
    tag: Seq<char>,
    key: Seq<char>,
    value: Seq<char>,
)
    requires
        gives_attr(doc, encode_utf8(tag), encode_utf8(key), encode_utf8(value)),
    ensures
        attr_in(doc, encode_utf8(tag), encode_utf8(key)) == Some(value),
{
    let (k, j) = choose|k: int, j: int| #[trigger]
        gives_attr_at(doc, encode_utf8(tag), encode_utf8(key), encode_utf8(value), k, j);
    lemma_attr_at(doc, encode_utf8(tag), encode_utf8(key), encode_utf8(value), k, j);
    encode_utf8_valid_utf8(value);
    encode_utf8_decode_utf8(value);
}

/// An attribute that no tag of the name has is not read.
pub proof fn law_missing_attribute_is_not_read(doc: Seq<XmlItem>, tag: Seq<u8>, key: Seq<u8>)
    requires
        gives_no_attr(doc, tag, key),
    ensures
        attr_in(doc, tag, key) is None,
    decreases doc.len(),
{
    if doc.len() > 0 {
        let rest = doc.skip(1);
        assert(!carries(doc[0], tag, key));
        lemma_carries_nothing(doc[0], tag, key);
        assert forall|i: int| 0 <= i < rest.len() implies !carries(#[trigger] rest[i], tag, key) by {
            assert(rest[i] == doc[i + 1]);
        }
        law_missing_attribute_is_not_read(rest, tag, key);
    }
}

/// Whether an event is a start tag of a name that has something inside.
pub open spec fn opens(e: XmlItem, tag: Seq<u8>) -> bool {
    e matches XmlItem::Open { name, attrs, empty } && name == tag && !empty
}

/// Whether an event is text, be it plain or in a section of its own, that reads
/// as told.
pub open spec fn is_text(e: XmlItem, t: Seq<char>) -> bool {
    e == (XmlItem::Text { text: Some(t) }) || e == (XmlItem::CData { bytes: encode_utf8(t) })
}

/// Whether an event lets one stay inside a tag and look on for its text.
pub open spec fn passes(e: XmlItem, tag: Seq<u8>) -> bool {
    match e {
        XmlItem::Open { .. } => true,
        XmlItem::Close { name } => name != tag,
        XmlItem::Text { .. } => false,
        XmlItem::CData { .. } => false,
        XmlItem::Other => true,
    }
}

/// Whether the text of the first element of a name, the first with something
/// inside, reads as told.
pub open spec fn gives_text(doc: Seq<XmlItem>, tag: Seq<u8>, t: Seq<char>) -> bool {
    exists|k: int, m: int| #[trigger] gives_text_at(doc, tag, t, k, m)
}

/// The same, where the places of the start tag and of the text are told.
pub open spec fn gives_text_at(
    doc: Seq<XmlItem>,
    tag: Seq<u8>,
    t: Seq<char>,
    k: int,
    m: int,
) -> bool {
    &&& 0 <= k < m < doc.len()
    &&& opens(doc[k], tag)
    &&& is_text(doc[m], t)
    &&& forall|i: int| 0 <= i < k ==> !opens(#[trigger] doc[i], tag)
    &&& forall|i: int| k < i < m ==> passes(#[trigger] doc[i], tag)
}

proof fn lemma_text_inside(doc: Seq<XmlItem>, tag: Seq<u8>, t: Seq<char>, m: int)
    requires
        0 <= m < doc.len(),
        is_text(doc[m], t),
        forall|i: int| 0 <= i < m ==> passes(#[trigger] doc[i], tag),
    ensures
        text_in(doc, tag, true) == Some(t),
    decreases m,
{
    if m == 0 {
        encode_utf8_valid_utf8(t);
        encode_utf8_decode_utf8(t);
    } else {
        let rest = doc.skip(1);
        assert(passes(doc[0], tag));
        assert(rest[m - 1] == doc[m]);
        assert forall|i: int| 0 <= i < m - 1 implies passes(#[trigger] rest[i], tag) by {
            assert(rest[i] == doc[i + 1]);
        }
        lemma_text_inside(rest, tag, t, m - 1);
    }
}

proof fn lemma_text_at(doc: Seq<XmlItem>, tag: Seq<u8>, t: Seq<char>, k: int, m: int)
    requires
        gives_text_at(doc, tag, t, k, m),
    ensures
        text_in(doc, tag, false) == Some(t),
    decreases k,
{
    let rest = doc.skip(1);
    if k == 0 {
        assert(rest[m - 1] == doc[m]);
        assert forall|i: int| 0 <= i < m - 1 implies passes(#[trigger] rest[i], tag) by {
            assert(rest[i] == doc[i + 1]);
        }
        lemma_text_inside(rest, tag, t, m - 1);
    } else {
        assert(!opens(doc[0], tag));
        assert(rest[k - 1] == doc[k]);
        assert(rest[m - 1] == doc[m]);
        assert forall|i: int| 0 <= i < k - 1 implies !opens(#[trigger] rest[i], tag) by {
            assert(rest[i] == doc[i + 1]);
        }
        assert forall|i: int| k - 1 < i < m - 1 implies passes(#[trigger] rest[i], tag) by {
            assert(rest[i] == doc[i + 1]);
        }
        lemma_text_at(rest, tag, t, k - 1, m - 1);
    }
}

/// The text of an element is the first that stands inside it, plain or in a
/// section of its own, whatever stands before and behind.
pub proof fn law_text_is_read(doc: Seq<XmlItem>, tag: Seq<u8>, t: Seq<char>)
    requires
        gives_text(doc, tag, t),
    ensures
        text_in(doc, tag, false) == Some(t),
{
    let (k, m) = choose|k: int, m: int| #[trigger] gives_text_at(doc, tag, t, k, m);
    lemma_text_at(doc, tag, t, k, m);
}

/// Whether no start tag of a name has anything inside.
pub open spec fn gives_no_text(doc: Seq<XmlItem>, tag: Seq<u8>) -> bool {
    forall|i: int| 0 <= i < doc.len() ==> !opens(#[trigger] doc[i], tag)
}

/// Text outside the elements of a name is not taken for theirs.
pub proof fn law_missing_text_is_not_read(doc: Seq<XmlItem>, tag: Seq<u8>)
    requires
        gives_no_text(doc, tag),
    ensures
        text_in(doc, tag, false) is None,
    decreases doc.len(),
{
    if doc.len() > 0 {
        let rest = doc.skip(1);
        assert(!opens(doc[0], tag));
        assert forall|i: int| 0 <= i < rest.len() implies !opens(#[trigger] rest[i], tag) by {
            assert(rest[i] == doc[i + 1]);
        }
        law_missing_text_is_not_read(rest, tag);
    }
}

/// An element that is closed without a text is passed over.
pub proof fn law_empty_element_is_passed(
    doc: Seq<XmlItem>,
    tag: Seq<u8>,
    attrs: Seq<Option<(Seq<u8>, Seq<u8>)>>,
)
    ensures
        text_in(
            seq![
                XmlItem::Open { name: tag, attrs, empty: false },
                XmlItem::Close { name: tag },
            ] + doc,
            tag,
            false,
        ) == text_in(doc, tag, false),
{
    let all = seq![
        XmlItem::Open { name: tag, attrs, empty: false },
        XmlItem::Close { name: tag },
    ] + doc;
    assert(all.skip(1).skip(1) =~= doc);
    assert(all.skip(1)[0] == (XmlItem::Close { name: tag }));
    assert(text_in(all, tag, false) == text_in(all.skip(1), tag, true));
    assert(text_in(all.skip(1), tag, true) == text_in(all.skip(1).skip(1), tag, false));
}

} // verus!
