//! The content of a message: what kind it is, what it carries, and how it
//! reads in one line.
use vstd::prelude::*;
use vstd::utf8::*;
use crate::bytes;
use crate::number;
use crate::outside;
use crate::text;
use crate::xml;
use crate::xml::{XmlEvent, XmlItem};

verus! {

/// Structured content of a message, by the low half of its type number.
#[derive(Debug, Clone)]
pub enum MsgContent {
    /// Plain text (type 1).
    Text { text: String },
    /// Picture (type 3).
    Image { path: Option<String> },
    /// Voice (type 34).
    Voice { duration_ms: Option<u32> },
    /// Video (type 43).
    Video { thumb_path: Option<String> },
    /// Sticker (type 47).
    Emoji { url: Option<String> },
    /// Link, file or mini program (type 49), or contact card (type 42).
    App {
        title: Option<String>,
        desc: Option<String>,
        url: Option<String>,
        app_type: Option<i32>,
    },
    /// System notice (types 10000 and 10002).
    System { text: String },
    /// Any other type.
    Unknown { raw: String, msg_type: i64 },
}

/// Message content as a mathematical value.
pub enum ContentView {
    Text { text: Seq<char> },
    Image { path: Option<Seq<char>> },
    Voice { duration_ms: Option<u32> },
    Video { thumb_path: Option<Seq<char>> },
    Emoji { url: Option<Seq<char>> },
    App {
        title: Option<Seq<char>>,
        desc: Option<Seq<char>>,
        url: Option<Seq<char>>,
        app_type: Option<i32>,
    },
    System { text: Seq<char> },
    Unknown { raw: Seq<char>, msg_type: i64 },
}

impl View for MsgContent {
    type V = ContentView;

    open spec fn view(&self) -> ContentView {
        match self {
            MsgContent::Text { text } => ContentView::Text { text: text@ },
            MsgContent::Image { path } => ContentView::Image { path: text::opt_view(*path) },
            MsgContent::Voice { duration_ms } => ContentView::Voice { duration_ms: *duration_ms },
            MsgContent::Video { thumb_path } => ContentView::Video {
                thumb_path: text::opt_view(*thumb_path),
            },
            MsgContent::Emoji { url } => ContentView::Emoji { url: text::opt_view(*url) },
            MsgContent::App { title, desc, url, app_type } => ContentView::App {
                title: text::opt_view(*title),
                desc: text::opt_view(*desc),
                url: text::opt_view(*url),
                app_type: *app_type,
            },
            MsgContent::System { text } => ContentView::System { text: text@ },
            MsgContent::Unknown { raw, msg_type } => ContentView::Unknown {
                raw: raw@,
                msg_type: *msg_type,
            },
        }
    }
}

// ---------------------------------------------------------------------
// One-line preview
// ---------------------------------------------------------------------

/// The short name of a kind of content.
pub open spec fn label_of(c: ContentView) -> Seq<char> {
    match c {
        ContentView::Text { .. } => "文本"@,
        ContentView::Image { .. } => "图片"@,
        ContentView::Voice { .. } => "语音"@,
        ContentView::Video { .. } => "视频"@,
        ContentView::Emoji { .. } => "表情"@,
        ContentView::App { .. } => "链接"@,
        ContentView::System { .. } => "系统"@,
        ContentView::Unknown { .. } => "未知"@,
    }
}

/// Whether a title in small letters ends like the name of a file.
pub open spec fn is_file_title(lowered: Seq<char>) -> bool {
    ||| text::ends(lowered, ".pdf"@)
    ||| text::ends(lowered, ".doc"@)
    ||| text::ends(lowered, ".docx"@)
    ||| text::ends(lowered, ".xls"@)
    ||| text::ends(lowered, ".xlsx"@)
    ||| text::ends(lowered, ".ppt"@)
    ||| text::ends(lowered, ".pptx"@)
    ||| text::ends(lowered, ".zip"@)
    ||| text::ends(lowered, ".rar"@)
    ||| text::ends(lowered, ".7z"@)
    ||| text::ends(lowered, ".txt"@)
    ||| text::ends(lowered, ".csv"@)
    ||| text::ends(lowered, ".apk"@)
    ||| text::ends(lowered, ".exe"@)
    ||| text::ends(lowered, ".dmg"@)
}

/// The name of a kind of app message by its number: a link where it has no name
/// of its own.
pub open spec fn app_name(app_type: int) -> Seq<char> {
    if app_type == 3 {
        "音乐"@
    } else if app_type == 6 {
        "文件"@
    } else if app_type == 19 {
        "转发"@
    } else if app_type == 33 || app_type == 36 {
        "小程序"@
    } else if app_type == 42 {
        "名片"@
    } else if app_type == 2000 {
        "转账"@
    } else if app_type == 2001 {
        "红包"@
    } else {
        "链接"@
    }
}

/// The name of a kind of app message: by its number, or, where that could not be
/// read, by the title in small letters.
pub open spec fn app_label_of(app_type: Option<i32>, lowered: Seq<char>) -> Seq<char> {
    match app_type {
        Some(n) => app_name(n as int),
        None => if is_file_title(lowered) {
            "文件"@
        } else {
            "链接"@
        },
    }
}

/// The text of an optional string, empty where there is none.
pub open spec fn or_empty(o: Option<Seq<char>>) -> Seq<char> {
    match o {
        Some(s) => s,
        None => Seq::empty(),
    }
}

/// The line for an app message with the given label.
pub open spec fn app_line(label: Seq<char>, title: Seq<char>, desc: Seq<char>) -> Seq<char> {
    if title.len() > 0 {
        "["@ + label + "] "@ + title
    } else if desc.len() > 0 {
        "["@ + label + "] "@ + desc
    } else {
        "["@ + label + "]"@
    }
}

/// The line for a voice message.
pub open spec fn voice_line(duration_ms: Option<u32>) -> Seq<char> {
    match duration_ms {
        Some(ms) => if ms >= 1000 {
            "[语音 "@ + number::dec((ms / 1000) as nat) + "s]"@
        } else if ms > 0 {
            "[语音 "@ + number::dec(ms as nat) + "ms]"@
        } else {
            "[语音]"@
        },
        None => "[语音]"@,
    }
}

/// The whole line for some content.
pub open spec fn line_of(c: ContentView) -> Seq<char> {
    match c {
        ContentView::Text { text } => text,
        ContentView::Image { .. } => "[图片]"@,
        ContentView::Voice { duration_ms } => voice_line(duration_ms),
        ContentView::Video { .. } => "[视频]"@,
        ContentView::Emoji { url } => "[表情] "@ + or_empty(url),
        ContentView::App { title, desc, url, app_type } => app_line(
            app_label_of(app_type, outside::lowercase(or_empty(title))),
            or_empty(title),
            or_empty(desc),
        ),
        ContentView::System { text } => "[系统] "@ + text,
        ContentView::Unknown { raw, msg_type } => "[type="@ + number::int_dec(msg_type as int)
            + "]"@,
    }
}

/// Whether a title in small letters ends like the name of a file.
pub fn looks_like_file(lowered: &str) -> (r: bool)
    ensures
        r == is_file_title(lowered@),
{
    text::ends_with(lowered, ".pdf") || text::ends_with(lowered, ".doc") || text::ends_with(
        lowered,
        ".docx",
    ) || text::ends_with(lowered, ".xls") || text::ends_with(lowered, ".xlsx") || text::ends_with(
        lowered,
        ".ppt",
    ) || text::ends_with(lowered, ".pptx") || text::ends_with(lowered, ".zip") || text::ends_with(
        lowered,
        ".rar",
    ) || text::ends_with(lowered, ".7z") || text::ends_with(lowered, ".txt") || text::ends_with(
        lowered,
        ".csv",
    ) || text::ends_with(lowered, ".apk") || text::ends_with(lowered, ".exe") || text::ends_with(
        lowered,
        ".dmg",
    )
}

/// The name of a kind of app message whose title in small letters is `lowered`.
pub fn app_label(app_type: Option<i32>, lowered: &str) -> (r: &'static str)
    ensures
        r@ == app_label_of(app_type, lowered@),
{
    match app_type {
        Some(n) => if n == 3 {
            "音乐"
        } else if n == 6 {
            "文件"
        } else if n == 19 {
            "转发"
        } else if n == 33 || n == 36 {
            "小程序"
        } else if n == 42 {
            "名片"
        } else if n == 2000 {
            "转账"
        } else if n == 2001 {
            "红包"
        } else {
            "链接"
        },
        None => if looks_like_file(lowered) {
            "文件"
        } else {
            "链接"
        },
    }
}

/// The line for an app message with the given label.
pub fn app_preview(label: &str, title: &str, desc: &str) -> (r: String)
    ensures
        r@ == app_line(label@, title@, desc@),
{
    let mut s = String::new();
    s.append("[");
    s.append(label);
    assert(s@ =~= "["@ + label@);
    if !title.is_empty() {
        s.append("] ");
        s.append(title);
    } else if !desc.is_empty() {
        s.append("] ");
        s.append(desc);
    } else {
        s.append("]");
    }
    s
}

/// The text of an optional string, empty where there is none.
fn text_or_empty(o: &Option<String>) -> (r: String)
    ensures
        r@ == or_empty(text::opt_view(*o)),
{
    match o {
        Some(s) => s.clone(),
        None => String::new(),
    }
}

/// The line for a voice message.
fn voice_preview(duration_ms: &Option<u32>) -> (r: String)
    ensures
        r@ == voice_line(*duration_ms),
{
    match duration_ms {
        Some(ms) => {
            let n: u32 = *ms;
            if n >= 1000 {
                let mut s = String::new();
                s.append("[语音 ");
                s.append(number::decimal((n / 1000) as u64).as_str());
                s.append("s]");
                assert(s@ =~= voice_line(*duration_ms));
                s
            } else if n > 0 {
                let mut s = String::new();
                s.append("[语音 ");
                s.append(number::decimal(n as u64).as_str());
                s.append("ms]");
                assert(s@ =~= voice_line(*duration_ms));
                s
            } else {
                "[语音]".to_owned()
            }
        },
        None => "[语音]".to_owned(),
    }
}

impl MsgContent {
    /// The short name of this kind of content.
    pub fn type_label(&self) -> (r: &'static str)
        ensures
            r@ == label_of(self@),
    {
        match self {
            MsgContent::Text { .. } => "文本",
            MsgContent::Image { .. } => "图片",
            MsgContent::Voice { .. } => "语音",
            MsgContent::Video { .. } => "视频",
            MsgContent::Emoji { .. } => "表情",
            MsgContent::App { .. } => "链接",
            MsgContent::System { .. } => "系统",
            MsgContent::Unknown { .. } => "未知",
        }
    }

    /// This content in one line of at most `max_len` bytes, three dots marking
    /// a cut.
    pub fn preview(&self, max_len: usize) -> (r: String)
        ensures
            r@ == bytes::clip(line_of(self@), max_len as int),
            bytes::byte_len(line_of(self@)) <= usize::MAX,
    {
        let line = match self {
            MsgContent::Text { text } => text.clone(),
            MsgContent::Image { .. } => "[图片]".to_owned(),
            MsgContent::Voice { duration_ms } => voice_preview(duration_ms),
            MsgContent::Video { .. } => "[视频]".to_owned(),
            MsgContent::Emoji { url } => {
                let mut s = String::new();
                s.append("[表情] ");
                s.append(text_or_empty(url).as_str());
                assert(s@ =~= line_of(self@));
                s
            },
            MsgContent::App { title, desc, url, app_type } => {
                let t = text_or_empty(title);
                let d = text_or_empty(desc);
                let lowered = outside::to_lowercase(t.as_str());
                app_preview(app_label(*app_type, lowered.as_str()), t.as_str(), d.as_str())
            },
            MsgContent::System { text } => {
                let mut s = String::new();
                s.append("[系统] ");
                s.append(text.as_str());
                assert(s@ =~= line_of(self@));
                s
            },
            MsgContent::Unknown { raw, msg_type } => {
                let mut s = String::new();
                s.append("[type=");
                s.append(number::signed_decimal(*msg_type).as_str());
                s.append("]");
                assert(s@ =~= line_of(self@));
                s
            },
        };
        bytes::clipped(line.as_str(), max_len)
    }
}

/// A preview is the whole line, which the greatest length gives, where that
/// fits; else it is as much of the line as fits and three dots, so it is never
/// longer than was asked for but for these.
pub proof fn law_preview_cuts_the_line(c: ContentView, max: int)
    requires
        0 <= max,
        bytes::byte_len(line_of(c)) <= usize::MAX,
    ensures
        ({
            let full = bytes::clip(line_of(c), usize::MAX as int);
            let shown = bytes::clip(line_of(c), max);
            &&& full == line_of(c)
            &&& bytes::byte_len(full) <= max ==> shown == full
            &&& bytes::byte_len(full) > max ==> exists|k: int|
                0 <= k < full.len() && shown == #[trigger] full.take(k) + "..."@
                    && bytes::byte_len(full.take(k)) <= max && forall|j: int|
                    k < j <= full.len() ==> bytes::byte_len(#[trigger] full.take(j)) > max
            &&& bytes::byte_len(shown) <= max + 3
        }),
{
    bytes::law_clip_is_short(line_of(c), max);
}

// ---------------------------------------------------------------------
// Parsing
// ---------------------------------------------------------------------

/// The kind of a message: the low sixteen bits of its type number, whose high
/// bits are flags.
pub open spec fn base_type(msg_type: int) -> int {
    msg_type % 0x10000
}

/// The kind of a message.
pub fn base_of(msg_type: i64) -> (r: i32)
    ensures
        r == base_type(msg_type as int),
{
    let low: i64 = msg_type & 0xFFFF;
    assert((msg_type & 0xFFFF) == msg_type % 0x10000) by (bit_vector);
    low as i32
}

/// The first of two optional values that is there.
pub open spec fn first_some<A>(a: Option<A>, b: Option<A>) -> Option<A> {
    match a {
        Some(x) => Some(x),
        None => b,
    }
}

/// The first of two optional strings that is there.
fn either(a: Option<String>, b: Option<String>) -> (r: Option<String>)
    ensures
        text::opt_view(r) == first_some(text::opt_view(a), text::opt_view(b)),
{
    match a {
        Some(x) => Some(x),
        None => b,
    }
}

/// The attribute `attr` of the element `tag`.
pub open spec fn attr_of(doc: Seq<XmlItem>, tag: Seq<char>, attr: Seq<char>) -> Option<Seq<char>> {
    xml::attr_in(doc, encode_utf8(tag), encode_utf8(attr))
}

/// The text of the element `tag`.
pub open spec fn text_of(doc: Seq<XmlItem>, tag: Seq<char>) -> Option<Seq<char>> {
    xml::text_in(doc, encode_utf8(tag), false)
}

/// A picture: the address of its middle size, else of its full size.
pub open spec fn image_of(doc: Seq<XmlItem>) -> ContentView {
    ContentView::Image {
        path: first_some(
            attr_of(doc, "img"@, "cdnmidimgurl"@),
            attr_of(doc, "img"@, "cdnbigimgurl"@),
        ),
    }
}

/// A voice message: its length, under any of three names, if it is a number.
pub open spec fn voice_of(doc: Seq<XmlItem>) -> ContentView {
    let found = first_some(
        first_some(
            attr_of(doc, "voicemsg"@, "voicelength"@),
            attr_of(doc, "voicemsg"@, "voicelen"@),
        ),
        attr_of(doc, "voicemsg"@, "length"@),
    );
    ContentView::Voice {
        duration_ms: match found {
            Some(s) => match number::read_unsigned(s, u32::MAX as int) {
                Some(n) => Some(n as u32),
                None => None,
            },
            None => None,
        },
    }
}

/// A contact card: the nickname, else the picture, else the account.
pub open spec fn card_of(doc: Seq<XmlItem>) -> ContentView {
    ContentView::App {
        title: first_some(
            first_some(
                attr_of(doc, "msg"@, "nickname"@),
                attr_of(doc, "msg"@, "smallheadimgurl"@),
            ),
            attr_of(doc, "msg"@, "username"@),
        ),
        desc: Some("名片"@),
        url: None,
        app_type: Some(42i32),
    }
}

/// A video: the address of its thumbnail.
pub open spec fn video_of(doc: Seq<XmlItem>) -> ContentView {
    ContentView::Video { thumb_path: attr_of(doc, "videomsg"@, "cdnthumburl"@) }
}

/// A sticker: its address.
pub open spec fn emoji_of(doc: Seq<XmlItem>) -> ContentView {
    ContentView::Emoji { url: attr_of(doc, "emoji"@, "cdnurl"@) }
}

/// An app message: its title, description, address and subtype.
pub open spec fn app_of(doc: Seq<XmlItem>) -> ContentView {
    ContentView::App {
        title: text_of(doc, "title"@),
        desc: text_of(doc, "des"@),
        url: text_of(doc, "url"@),
        app_type: match text_of(doc, "type"@) {
            Some(s) => match number::read_signed(s, i32::MIN as int, i32::MAX as int) {
                Some(n) => Some(n as i32),
                None => None,
            },
            None => None,
        },
    }
}

/// The structured form of a message whose content, read as XML, gives `doc`.
pub open spec fn content_of(msg_type: i64, content: Seq<char>, doc: Seq<XmlItem>) -> ContentView {
    let base = base_type(msg_type as int);
    if base == 1 {
        ContentView::Text { text: content }
    } else if base == 3 {
        image_of(doc)
    } else if base == 34 {
        voice_of(doc)
    } else if base == 42 {
        card_of(doc)
    } else if base == 43 {
        video_of(doc)
    } else if base == 47 {
        emoji_of(doc)
    } else if base == 49 {
        app_of(doc)
    } else if base == 10000 || base == 10002 {
        ContentView::System { text: content }
    } else {
        ContentView::Unknown { raw: content, msg_type }
    }
}

/// A picture message from its XML events.
pub fn image_from(events: &Vec<XmlEvent>) -> (r: MsgContent)
    ensures
        r@ == image_of(xml::items(events@)),
{
    MsgContent::Image {
        path: either(
            xml::attr_in_events(events, "img", "cdnmidimgurl"),
            xml::attr_in_events(events, "img", "cdnbigimgurl"),
        ),
    }
}

/// A voice message from its XML events.
pub fn voice_from(events: &Vec<XmlEvent>) -> (r: MsgContent)
    ensures
        r@ == voice_of(xml::items(events@)),
{
    let found = either(
        either(
            xml::attr_in_events(events, "voicemsg", "voicelength"),
            xml::attr_in_events(events, "voicemsg", "voicelen"),
        ),
        xml::attr_in_events(events, "voicemsg", "length"),
    );
    let duration_ms = match found {
        Some(s) => number::parse_u32(s.as_str()),
        None => None,
    };
    MsgContent::Voice { duration_ms }
}

/// A contact card from its XML events.
pub fn card_from(events: &Vec<XmlEvent>) -> (r: MsgContent)
    ensures
        r@ == card_of(xml::items(events@)),
{
    let nickname = either(
        xml::attr_in_events(events, "msg", "nickname"),
        xml::attr_in_events(events, "msg", "smallheadimgurl"),
    );
    let username = xml::attr_in_events(events, "msg", "username");
    MsgContent::App {
        title: either(nickname, username),
        desc: Some("名片".to_owned()),
        url: None,
        app_type: Some(42),
    }
}

/// A video message from its XML events.
pub fn video_from(events: &Vec<XmlEvent>) -> (r: MsgContent)
    ensures
        r@ == video_of(xml::items(events@)),
{
    MsgContent::Video { thumb_path: xml::attr_in_events(events, "videomsg", "cdnthumburl") }
}

/// A sticker message from its XML events.
pub fn emoji_from(events: &Vec<XmlEvent>) -> (r: MsgContent)
    ensures
        r@ == emoji_of(xml::items(events@)),
{
    MsgContent::Emoji { url: xml::attr_in_events(events, "emoji", "cdnurl") }
}

/// An app message from its XML events.
pub fn app_from(events: &Vec<XmlEvent>) -> (r: MsgContent)
    ensures
        r@ == app_of(xml::items(events@)),
{
    let title = xml::text_in_events(events, "title");
    let desc = xml::text_in_events(events, "des");
    let url = xml::text_in_events(events, "url");
    let app_type = match xml::text_in_events(events, "type") {
        Some(s) => number::parse_i32(s.as_str()),
        None => None,
    };
    MsgContent::App { title, desc, url, app_type }
}

/// A message from its type, its content and the XML events of the content.
pub fn content_from(msg_type: i64, content: &str, events: &Vec<XmlEvent>) -> (r: MsgContent)
    ensures
        r@ == content_of(msg_type, content@, xml::items(events@)),
{
    let base: i32 = base_of(msg_type);
    if base == 1 {
        MsgContent::Text { text: content.to_owned() }
    } else if base == 3 {
        image_from(events)
    } else if base == 34 {
        voice_from(events)
    } else if base == 42 {
        card_from(events)
    } else if base == 43 {
        video_from(events)
    } else if base == 47 {
        emoji_from(events)
    } else if base == 49 {
        app_from(events)
    } else if base == 10000 || base == 10002 {
        MsgContent::System { text: content.to_owned() }
    } else {
        MsgContent::Unknown { raw: content.to_owned(), msg_type }
    }
}

/// A picture message from its content.
pub fn parse_image(content: &str) -> (r: MsgContent)
    ensures
        r@ == image_of(outside::xml_items(content@)),
{
    image_from(&xml::read_events(content))
}

/// A voice message from its content.
pub fn parse_voice(content: &str) -> (r: MsgContent)
    ensures
        r@ == voice_of(outside::xml_items(content@)),
{
    voice_from(&xml::read_events(content))
}

/// A contact card from its content.
pub fn parse_contact_card(content: &str) -> (r: MsgContent)
    ensures
        r@ == card_of(outside::xml_items(content@)),
{
    card_from(&xml::read_events(content))
}

/// A video message from its content.
pub fn parse_video(content: &str) -> (r: MsgContent)
    ensures
        r@ == video_of(outside::xml_items(content@)),
{
    video_from(&xml::read_events(content))
}

/// A sticker message from its content.
pub fn parse_emoji(content: &str) -> (r: MsgContent)
    ensures
        r@ == emoji_of(outside::xml_items(content@)),
{
    emoji_from(&xml::read_events(content))
}

/// An app message from its content.
pub fn parse_app(content: &str) -> (r: MsgContent)
    ensures
        r@ == app_of(outside::xml_items(content@)),
{
    app_from(&xml::read_events(content))
}

/// A message from its type and its content.
pub fn parse_msg_content(msg_type: i64, content: &str) -> (r: MsgContent)
    ensures
        r@ == content_of(msg_type, content@, outside::xml_items(content@)),
{
    let base: i32 = base_of(msg_type);
    if base == 3 {
        parse_image(content)
    } else if base == 34 {
        parse_voice(content)
    } else if base == 42 {
        parse_contact_card(content)
    } else if base == 43 {
        parse_video(content)
    } else if base == 47 {
        parse_emoji(content)
    } else if base == 49 {
        parse_app(content)
    } else {
        let none: Vec<XmlEvent> = Vec::new();
        content_from(msg_type, content, &none)
    }
}

/// The flags in the high bits of a type number do not change what a message of
/// a known kind is parsed to.
pub proof fn law_flags_do_not_matter(a: i64, b: i64, content: Seq<char>, doc: Seq<XmlItem>)
    requires
        base_type(a as int) == base_type(b as int),
        !(content_of(a, content, doc) is Unknown),
    ensures
        content_of(a, content, doc) == content_of(b, content, doc),
{
}

// ---------------------------------------------------------------------
// Stored content
// ---------------------------------------------------------------------

/// Whether some bytes begin with the mark of a Zstandard frame.
pub open spec fn is_zstd(blob: Seq<u8>) -> bool {
    blob.len() >= 4 && blob[0] == 0x28 && blob[1] == 0xB5 && blob[2] == 0x2F && blob[3] == 0xFD
}

/// The text of a stored blob: unpacked where it is a sound Zstandard frame,
/// then read as UTF-8 with invalid parts replaced.
pub open spec fn blob_text(blob: Seq<u8>) -> Seq<char> {
    if is_zstd(blob) && outside::zstd_unpacked(blob) is Some {
        outside::utf8_lossy(outside::zstd_unpacked(blob)->0)
    } else {
        outside::utf8_lossy(blob)
    }
}

/// Whether some bytes begin with the mark of a Zstandard frame.
pub fn has_zstd_mark(blob: &Vec<u8>) -> (r: bool)
    ensures
        r == is_zstd(blob@),
{
    blob.len() >= 4 && blob[0] == 0x28 && blob[1] == 0xB5 && blob[2] == 0x2F && blob[3] == 0xFD
}

/// The bytes that hold the text of a stored blob, by what unpacking it gave:
/// what was unpacked, else the blob itself.
pub fn text_bytes(blob: &Vec<u8>, unpacked: Option<Vec<u8>>) -> (r: Vec<u8>)
    ensures
        r@ == match unpacked {
            Some(data) => data@,
            None => blob@,
        },
{
    match unpacked {
        Some(data) => data,
        None => blob.clone(),
    }
}

/// The text of a stored blob. Where the bytes that hold it are valid UTF-8, it
/// is what they encode.
pub fn decompress_wcdb_content(blob: &Vec<u8>) -> (r: String)
    ensures
        r@ == blob_text(blob@),
        !is_zstd(blob@) && valid_utf8(blob@) ==> r@ == decode_utf8(blob@),
        is_zstd(blob@) ==> match outside::zstd_unpacked(blob@) {
            Some(data) => valid_utf8(data) ==> r@ == decode_utf8(data),
            None => valid_utf8(blob@) ==> r@ == decode_utf8(blob@),
        },
{
    let unpacked = if has_zstd_mark(blob) {
        outside::zstd_decode(blob)
    } else {
        None
    };
    outside::lossy_string(&text_bytes(blob, unpacked))
}

/// Bytes are taken for a packed text exactly where they begin with the four
/// bytes that mark a Zstandard frame.
pub proof fn law_mark_is_four_bytes(mark: Seq<u8>, rest: Seq<u8>)
    requires
        mark.len() == 4,
    ensures
        is_zstd(mark + rest) <==> mark == seq![0x28u8, 0xB5u8, 0x2Fu8, 0xFDu8],
{
    let b = mark + rest;
    if is_zstd(b) {
        assert(mark =~= seq![0x28u8, 0xB5u8, 0x2Fu8, 0xFDu8]);
    }
}

// ---------------------------------------------------------------------
// Laws on parsing
// ---------------------------------------------------------------------

/// The kind of a message is told by the low sixteen bits of its type number, and
/// texts, notices and unknown kinds keep what was stored.
pub proof fn law_kind_by_low_bits(msg_type: i64, content: Seq<char>, doc: Seq<XmlItem>)
    ensures
        ({
            let low = msg_type & 0xFFFF;
            let c = content_of(msg_type, content, doc);
            &&& c is Text <==> low == 1
            &&& c is Image <==> low == 3
            &&& c is Voice <==> low == 34
            &&& c is Video <==> low == 43
            &&& c is Emoji <==> low == 47
            &&& c is App <==> low == 42 || low == 49
            &&& c is System <==> low == 10000 || low == 10002
            &&& low == 1 ==> c == (ContentView::Text { text: content })
            &&& low == 10000 || low == 10002 ==> c == (ContentView::System { text: content })
            &&& c matches ContentView::Unknown { raw, msg_type: n } ==> raw == content && n
                == msg_type
        }),
{
    assert((msg_type & 0xFFFF) == msg_type % 0x10000) by (bit_vector);
}

/// Whether the first tag of a name that has an attribute gives it a value.
pub open spec fn tag_gives(
    doc: Seq<XmlItem>,
    tag: Seq<char>,
    key: Seq<char>,
    value: Seq<char>,
) -> bool {
    xml::gives_attr(doc, encode_utf8(tag), encode_utf8(key), encode_utf8(value))
}

/// Whether no tag of a name has an attribute.
pub open spec fn tag_lacks(doc: Seq<XmlItem>, tag: Seq<char>, key: Seq<char>) -> bool {
    xml::gives_no_attr(doc, encode_utf8(tag), encode_utf8(key))
}

/// Whether the first element of a name has a text.
pub open spec fn element_says(doc: Seq<XmlItem>, tag: Seq<char>, t: Seq<char>) -> bool {
    xml::gives_text(doc, encode_utf8(tag), t)
}

/// Whether no element of a name has anything inside.
pub open spec fn element_lacks(doc: Seq<XmlItem>, tag: Seq<char>) -> bool {
    xml::gives_no_text(doc, encode_utf8(tag))
}

proof fn lemma_attr(doc: Seq<XmlItem>, tag: Seq<char>, key: Seq<char>, value: Seq<char>)
    ensures
        tag_gives(doc, tag, key, value) ==> attr_of(doc, tag, key) == Some(value),
        tag_lacks(doc, tag, key) ==> attr_of(doc, tag, key) is None,
{
    if tag_gives(doc, tag, key, value) {
        xml::law_attribute_is_read(doc, tag, key, value);
    }
    if tag_lacks(doc, tag, key) {
        xml::law_missing_attribute_is_not_read(doc, encode_utf8(tag), encode_utf8(key));
    }
}

proof fn lemma_text(doc: Seq<XmlItem>, tag: Seq<char>, t: Seq<char>)
    ensures
        element_says(doc, tag, t) ==> text_of(doc, tag) == Some(t),
        element_lacks(doc, tag) ==> text_of(doc, tag) is None,
{
    if element_says(doc, tag, t) {
        xml::law_text_is_read(doc, encode_utf8(tag), t);
    }
    if element_lacks(doc, tag) {
        xml::law_missing_text_is_not_read(doc, encode_utf8(tag));
    }
}

/// A picture's address is that of the middle size where there is one, else that
/// of the full size, else none.
pub proof fn law_picture_address(
    msg_type: i64,
    content: Seq<char>,
    doc: Seq<XmlItem>,
    url: Seq<char>,
)
    requires
        msg_type & 0xFFFF == 3,
    ensures
        ({
            let c = content_of(msg_type, content, doc);
            &&& tag_gives(doc, "img"@, "cdnmidimgurl"@, url) ==> c == (ContentView::Image {
                path: Some(url),
            })
            &&& tag_lacks(doc, "img"@, "cdnmidimgurl"@) && tag_gives(
                doc,
                "img"@,
                "cdnbigimgurl"@,
                url,
            ) ==> c == (ContentView::Image { path: Some(url) })
            &&& tag_lacks(doc, "img"@, "cdnmidimgurl"@) && tag_lacks(doc, "img"@, "cdnbigimgurl"@)
                ==> c == (ContentView::Image { path: None })
        }),
{
    law_kind_by_low_bits(msg_type, content, doc);
    assert((msg_type & 0xFFFF) == msg_type % 0x10000) by (bit_vector);
    lemma_attr(doc, "img"@, "cdnmidimgurl"@, url);
    lemma_attr(doc, "img"@, "cdnbigimgurl"@, url);
}

/// A voice message's length in milliseconds is what its tag says, under the
/// first of three names that the tag has; none where it has none of them, or
/// where that is not a number.
pub proof fn law_voice_length(
    msg_type: i64,
    content: Seq<char>,
    doc: Seq<XmlItem>,
    ms: u32,
    other: Seq<char>,
)
    requires
        msg_type & 0xFFFF == 34,
    ensures
        ({
            let c = content_of(msg_type, content, doc);
            let told = ContentView::Voice { duration_ms: Some(ms) };
            let untold = ContentView::Voice { duration_ms: None };
            let digits = number::int_dec(ms as int);
            let first = tag_lacks(doc, "voicemsg"@, "voicelength"@);
            let second = tag_lacks(doc, "voicemsg"@, "voicelen"@);
            &&& tag_gives(doc, "voicemsg"@, "voicelength"@, digits) ==> c == told
            &&& first && tag_gives(doc, "voicemsg"@, "voicelen"@, digits) ==> c == told
            &&& first && second && tag_gives(doc, "voicemsg"@, "length"@, digits) ==> c == told
            &&& first && second && tag_lacks(doc, "voicemsg"@, "length"@) ==> c == untold
            &&& tag_gives(doc, "voicemsg"@, "voicelength"@, other) && (other.len() == 0 || exists|
                i: int,
            |
                1 <= i < other.len() && !text::is_digit(#[trigger] other[i])) ==> c == untold
        }),
{
    let digits = number::int_dec(ms as int);
    assert((msg_type & 0xFFFF) == msg_type % 0x10000) by (bit_vector);
    number::law_number_reads_back(ms as int, 0, u32::MAX as int);
    number::law_only_numbers_are_read(other, 0, u32::MAX as int);
    lemma_attr(doc, "voicemsg"@, "voicelength"@, digits);
    lemma_attr(doc, "voicemsg"@, "voicelength"@, other);
    lemma_attr(doc, "voicemsg"@, "voicelen"@, digits);
    lemma_attr(doc, "voicemsg"@, "length"@, digits);
}

/// A contact card is titled with the nickname where there is one, whatever else
/// stands beside it; else with the picture's address, else with the account. It
/// counts as a card and has no address.
pub proof fn law_card_title(
    msg_type: i64,
    content: Seq<char>,
    doc: Seq<XmlItem>,
    name: Seq<char>,
)
    requires
        msg_type & 0xFFFF == 42,
    ensures
        ({
            let c = content_of(msg_type, content, doc);
            let unnamed = tag_lacks(doc, "msg"@, "nickname"@);
            let unseen = tag_lacks(doc, "msg"@, "smallheadimgurl"@);
            &&& c matches ContentView::App { title, desc, url, app_type } && desc == Some("名片"@)
                && url is None && app_type == Some(42i32)
            &&& tag_gives(doc, "msg"@, "nickname"@, name) ==> c->title == Some(name)
            &&& unnamed && tag_gives(doc, "msg"@, "smallheadimgurl"@, name) ==> c->title == Some(
                name,
            )
            &&& unnamed && unseen && tag_gives(doc, "msg"@, "username"@, name) ==> c->title == Some(
                name,
            )
            &&& unnamed && unseen && tag_lacks(doc, "msg"@, "username"@) ==> c->title is None
        }),
{
    assert((msg_type & 0xFFFF) == msg_type % 0x10000) by (bit_vector);
    lemma_attr(doc, "msg"@, "nickname"@, name);
    lemma_attr(doc, "msg"@, "smallheadimgurl"@, name);
    lemma_attr(doc, "msg"@, "username"@, name);
}

/// A video's thumbnail and a sticker's picture are at the addresses that their
/// tags give, and at none where these give none.
pub proof fn law_video_and_sticker_address(
    msg_type: i64,
    content: Seq<char>,
    doc: Seq<XmlItem>,
    at: Seq<char>,
)
    ensures
        ({
            let c = content_of(msg_type, content, doc);
            &&& msg_type & 0xFFFF == 43 && tag_gives(doc, "videomsg"@, "cdnthumburl"@, at) ==> c == (
            ContentView::Video { thumb_path: Some(at) })
            &&& msg_type & 0xFFFF == 43 && tag_lacks(doc, "videomsg"@, "cdnthumburl"@) ==> c == (
            ContentView::Video { thumb_path: None })
            &&& msg_type & 0xFFFF == 47 && tag_gives(doc, "emoji"@, "cdnurl"@, at) ==> c == (
            ContentView::Emoji { url: Some(at) })
            &&& msg_type & 0xFFFF == 47 && tag_lacks(doc, "emoji"@, "cdnurl"@) ==> c == (
            ContentView::Emoji { url: None })
        }),
{
    assert((msg_type & 0xFFFF) == msg_type % 0x10000) by (bit_vector);
    lemma_attr(doc, "videomsg"@, "cdnthumburl"@, at);
    lemma_attr(doc, "emoji"@, "cdnurl"@, at);
}

/// An app message has the title, the description, the address and the number of
/// its kind that stand in the elements of these names, each by itself, and lacks
/// what has no element.
pub proof fn law_app_fields(
    msg_type: i64,
    content: Seq<char>,
    doc: Seq<XmlItem>,
    t: Seq<char>,
    n: i32,
)
    requires
        msg_type & 0xFFFF == 49,
    ensures
        ({
            let c = content_of(msg_type, content, doc);
            &&& c is App
            &&& element_says(doc, "title"@, t) ==> c->title == Some(t)
            &&& element_lacks(doc, "title"@) ==> c->title is None
            &&& element_says(doc, "des"@, t) ==> c->desc == Some(t)
            &&& element_lacks(doc, "des"@) ==> c->desc is None
            &&& element_says(doc, "url"@, t) ==> c->App_url == Some(t)
            &&& element_lacks(doc, "url"@) ==> c->App_url is None
            &&& element_says(doc, "type"@, number::int_dec(n as int)) ==> c->app_type == Some(n)
            &&& element_lacks(doc, "type"@) ==> c->app_type is None
            &&& element_says(doc, "type"@, t) && (t.len() == 0 || exists|i: int|
                1 <= i < t.len() && !text::is_digit(#[trigger] t[i])) ==> c->app_type is None
        }),
{
    assert((msg_type & 0xFFFF) == msg_type % 0x10000) by (bit_vector);
    number::law_number_reads_back(n as int, i32::MIN as int, i32::MAX as int);
    number::law_only_numbers_are_read(t, i32::MIN as int, i32::MAX as int);
    lemma_text(doc, "title"@, t);
    lemma_text(doc, "des"@, t);
    lemma_text(doc, "url"@, t);
    lemma_text(doc, "type"@, t);
    lemma_text(doc, "type"@, number::int_dec(n as int));
}

// ---------------------------------------------------------------------
// Laws on how content reads
// ---------------------------------------------------------------------

/// Each kind of content has a name of its own.
pub proof fn law_kinds_have_names(c: ContentView)
    ensures
        c is Text <==> label_of(c) == "文本"@,
        c is Image <==> label_of(c) == "图片"@,
        c is Voice <==> label_of(c) == "语音"@,
        c is Video <==> label_of(c) == "视频"@,
        c is Emoji <==> label_of(c) == "表情"@,
        c is App <==> label_of(c) == "链接"@,
        c is System <==> label_of(c) == "系统"@,
        c is Unknown <==> label_of(c) == "未知"@,
{
    reveal_strlit("文本");
    reveal_strlit("图片");
    reveal_strlit("语音");
    reveal_strlit("视频");
    reveal_strlit("表情");
    reveal_strlit("链接");
    reveal_strlit("系统");
    reveal_strlit("未知");
    assert("文本"@[0] == '文' && "图片"@[0] == '图' && "语音"@[0] == '语' && "视频"@[0] == '视'
        && "表情"@[0] == '表' && "链接"@[0] == '链' && "系统"@[0] == '系' && "未知"@[0] == '未');
}

/// The number of an app message's kind gives it its name, whatever its title; a
/// number without a name of its own stands for a link. Without a number, a title
/// like that of a file makes it a file, any other a link.
pub proof fn law_app_kinds_have_names(n: i32, lowered: Seq<char>)
    ensures
        app_label_of(Some(n), lowered) == "音乐"@ <==> n == 3,
        app_label_of(Some(n), lowered) == "文件"@ <==> n == 6,
        app_label_of(Some(n), lowered) == "转发"@ <==> n == 19,
        app_label_of(Some(n), lowered) == "小程序"@ <==> n == 33 || n == 36,
        app_label_of(Some(n), lowered) == "名片"@ <==> n == 42,
        app_label_of(Some(n), lowered) == "转账"@ <==> n == 2000,
        app_label_of(Some(n), lowered) == "红包"@ <==> n == 2001,
        app_label_of(Some(n), lowered) == "链接"@ <==> n != 3 && n != 6 && n != 19 && n != 33 && n
            != 36 && n != 42 && n != 2000 && n != 2001,
        app_label_of(None, lowered) == "文件"@ <==> is_file_title(lowered),
        app_label_of(None, lowered) == "链接"@ <==> !is_file_title(lowered),
{
    reveal_strlit("音乐");
    reveal_strlit("文件");
    reveal_strlit("转发");
    reveal_strlit("小程序");
    reveal_strlit("名片");
    reveal_strlit("转账");
    reveal_strlit("红包");
    reveal_strlit("链接");
    assert("音乐"@[0] == '音' && "文件"@[0] == '文' && "小程序"@[0] == '小' && "名片"@[0] == '名'
        && "红包"@[0] == '红' && "链接"@[0] == '链');
    assert("转发"@[0] == '转' && "转发"@[1] == '发' && "转账"@[0] == '转' && "转账"@[1] == '账');
}

/// The endings that make a title that of a file.
pub open spec fn file_kinds() -> Seq<Seq<char>> {
    seq![
        "pdf"@,
        "doc"@,
        "docx"@,
        "xls"@,
        "xlsx"@,
        "ppt"@,
        "pptx"@,
        "zip"@,
        "rar"@,
        "7z"@,
        "txt"@,
        "csv"@,
        "apk"@,
        "exe"@,
        "dmg"@,
    ]
}

proof fn lemma_ending(stem: Seq<char>, ext: Seq<char>, e: Seq<char>, dotted: Seq<char>)
    requires
        !ext.contains('.'),
        !e.contains('.'),
        dotted == seq!['.'] + e,
    ensures
        text::ends(stem + seq!['.'] + ext, dotted) <==> ext == e,
{
    let t = stem + seq!['.'] + ext;
    let at = t.len() - dotted.len();
    if ext == e {
        assert(t.subrange(at, t.len() as int) =~= dotted);
    }
    if text::ends(t, dotted) {
        let found = t.subrange(at, at + dotted.len());
        assert(found == dotted);
        assert(found[0] == '.');
        assert(t[at] == '.');
        if ext.len() > e.len() {
            assert(t[at] == ext[at - stem.len() - 1]);
            assert(ext.contains('.'));
        } else if ext.len() < e.len() {
            let k = stem.len() - at;
            assert(found[k] == t[stem.len() as int]);
            assert(e[k - 1] == '.');
            assert(e.contains('.'));
        } else {
            assert(ext =~= e) by {
                assert forall|i: int| 0 <= i < ext.len() implies ext[i] == e[i] by {
                    assert(found[i + 1] == t[at + i + 1]);
                }
            }
        }
    }
}

/// A title is that of a file exactly where what stands behind its last dot is
/// one of the known endings.
pub proof fn law_file_titles(stem: Seq<char>, ext: Seq<char>)
    requires
        !ext.contains('.'),
    ensures
        is_file_title(stem + seq!['.'] + ext) <==> file_kinds().contains(ext),
        !is_file_title(ext),
{
    reveal_strlit("pdf");
    reveal_strlit(".pdf");
    reveal_strlit("doc");
    reveal_strlit(".doc");
    reveal_strlit("docx");
    reveal_strlit(".docx");
    reveal_strlit("xls");
    reveal_strlit(".xls");
    reveal_strlit("xlsx");
    reveal_strlit(".xlsx");
    reveal_strlit("ppt");
    reveal_strlit(".ppt");
    reveal_strlit("pptx");
    reveal_strlit(".pptx");
    reveal_strlit("zip");
    reveal_strlit(".zip");
    reveal_strlit("rar");
    reveal_strlit(".rar");
    reveal_strlit("7z");
    reveal_strlit(".7z");
    reveal_strlit("txt");
    reveal_strlit(".txt");
    reveal_strlit("csv");
    reveal_strlit(".csv");
    reveal_strlit("apk");
    reveal_strlit(".apk");
    reveal_strlit("exe");
    reveal_strlit(".exe");
    reveal_strlit("dmg");
    reveal_strlit(".dmg");
    assert(".pdf"@ =~= seq!['.'] + "pdf"@);
    assert(".doc"@ =~= seq!['.'] + "doc"@);
    assert(".docx"@ =~= seq!['.'] + "docx"@);
    assert(".xls"@ =~= seq!['.'] + "xls"@);
    assert(".xlsx"@ =~= seq!['.'] + "xlsx"@);
    assert(".ppt"@ =~= seq!['.'] + "ppt"@);
    assert(".pptx"@ =~= seq!['.'] + "pptx"@);
    assert(".zip"@ =~= seq!['.'] + "zip"@);
    assert(".rar"@ =~= seq!['.'] + "rar"@);
    assert(".7z"@ =~= seq!['.'] + "7z"@);
    assert(".txt"@ =~= seq!['.'] + "txt"@);
    assert(".csv"@ =~= seq!['.'] + "csv"@);
    assert(".apk"@ =~= seq!['.'] + "apk"@);
    assert(".exe"@ =~= seq!['.'] + "exe"@);
    assert(".dmg"@ =~= seq!['.'] + "dmg"@);
    lemma_ending(stem, ext, "pdf"@, ".pdf"@);
    lemma_ending(stem, ext, "doc"@, ".doc"@);
    lemma_ending(stem, ext, "docx"@, ".docx"@);
    lemma_ending(stem, ext, "xls"@, ".xls"@);
    lemma_ending(stem, ext, "xlsx"@, ".xlsx"@);
    lemma_ending(stem, ext, "ppt"@, ".ppt"@);
    lemma_ending(stem, ext, "pptx"@, ".pptx"@);
    lemma_ending(stem, ext, "zip"@, ".zip"@);
    lemma_ending(stem, ext, "rar"@, ".rar"@);
    lemma_ending(stem, ext, "7z"@, ".7z"@);
    lemma_ending(stem, ext, "txt"@, ".txt"@);
    lemma_ending(stem, ext, "csv"@, ".csv"@);
    lemma_ending(stem, ext, "apk"@, ".apk"@);
    lemma_ending(stem, ext, "exe"@, ".exe"@);
    lemma_ending(stem, ext, "dmg"@, ".dmg"@);
    let kinds = file_kinds();
    assert(kinds[0] == "pdf"@);
    assert(kinds[1] == "doc"@);
    assert(kinds[2] == "docx"@);
    assert(kinds[3] == "xls"@);
    assert(kinds[4] == "xlsx"@);
    assert(kinds[5] == "ppt"@);
    assert(kinds[6] == "pptx"@);
    assert(kinds[7] == "zip"@);
    assert(kinds[8] == "rar"@);
    assert(kinds[9] == "7z"@);
    assert(kinds[10] == "txt"@);
    assert(kinds[11] == "csv"@);
    assert(kinds[12] == "apk"@);
    assert(kinds[13] == "exe"@);
    assert(kinds[14] == "dmg"@);
    if kinds.contains(ext) {
        let i = choose|i: int| 0 <= i < kinds.len() && kinds[i] == ext;
        assert(ext == kinds[i]);
    }
    if is_file_title(ext) {
        lemma_has_dot(ext);
    }
}

proof fn lemma_has_dot(t: Seq<char>)
    requires
        is_file_title(t),
    ensures
        t.contains('.'),
{
    reveal_strlit("pdf");
    reveal_strlit(".pdf");
    reveal_strlit("doc");
    reveal_strlit(".doc");
    reveal_strlit("docx");
    reveal_strlit(".docx");
    reveal_strlit("xls");
    reveal_strlit(".xls");
    reveal_strlit("xlsx");
    reveal_strlit(".xlsx");
    reveal_strlit("ppt");
    reveal_strlit(".ppt");
    reveal_strlit("pptx");
    reveal_strlit(".pptx");
    reveal_strlit("zip");
    reveal_strlit(".zip");
    reveal_strlit("rar");
    reveal_strlit(".rar");
    reveal_strlit("7z");
    reveal_strlit(".7z");
    reveal_strlit("txt");
    reveal_strlit(".txt");
    reveal_strlit("csv");
    reveal_strlit(".csv");
    reveal_strlit("apk");
    reveal_strlit(".apk");
    reveal_strlit("exe");
    reveal_strlit(".exe");
    reveal_strlit("dmg");
    reveal_strlit(".dmg");
    let dotted = if text::ends(t, ".7z"@) {
        3int
    } else if text::ends(t, ".docx"@) || text::ends(t, ".xlsx"@) || text::ends(t, ".pptx"@) {
        5int
    } else {
        4int
    };
    let found = t.subrange(t.len() - dotted, t.len() as int);
    assert(found[0] == '.');
    assert(t[t.len() - dotted] == '.');
}

/// How each kind of content reads in one line: a text as it is, the others by
/// their kind in brackets and what they say for themselves.
pub proof fn law_lines(t: Seq<char>, d: Seq<char>, u: Option<Seq<char>>, kind: Option<i32>, ms: u32, n: i64)
    ensures
        line_of(ContentView::Text { text: t }) == t,
        line_of(ContentView::Image { path: u }) == "[图片]"@,
        line_of(ContentView::Video { thumb_path: u }) == "[视频]"@,
        line_of(ContentView::System { text: t }) == "[系统] "@ + t,
        line_of(ContentView::Emoji { url: Some(t) }) == "[表情] "@ + t,
        line_of(ContentView::Unknown { raw: t, msg_type: n }) == "[type="@ + number::int_dec(n as int)
            + "]"@,
        ms >= 1000 ==> line_of(ContentView::Voice { duration_ms: Some(ms) }) == "[语音 "@
            + number::int_dec(ms as int / 1000) + "s]"@,
        0 < ms < 1000 ==> line_of(ContentView::Voice { duration_ms: Some(ms) }) == "[语音 "@
            + number::int_dec(ms as int) + "ms]"@,
        line_of(ContentView::Voice { duration_ms: Some(0) }) == "[语音]"@,
        line_of(ContentView::Voice { duration_ms: None }) == "[语音]"@,
        ({
            let label = app_label_of(kind, outside::lowercase(t));
            let bare = app_label_of(kind, outside::lowercase(Seq::empty()));
            &&& t.len() > 0 ==> line_of(
                ContentView::App { title: Some(t), desc: Some(d), url: u, app_type: kind },
            ) == "["@ + label + "] "@ + t
            &&& t.len() > 0 ==> line_of(
                ContentView::App { title: Some(t), desc: None, url: u, app_type: kind },
            ) == "["@ + label + "] "@ + t
            &&& d.len() > 0 ==> line_of(
                ContentView::App { title: None, desc: Some(d), url: u, app_type: kind },
            ) == "["@ + bare + "] "@ + d
            &&& line_of(ContentView::App { title: None, desc: None, url: u, app_type: kind }) == "["@
                + bare + "]"@
        }),
{
}

} // verus!
