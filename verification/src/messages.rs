//! Messages: from a stored row to a message with sender, chat and mentions.
use vstd::prelude::*;
use vstd::utf8::*;
use crate::bytes;
use crate::cell;
use crate::cell::{Cell, CellView};
use crate::contacts;
use crate::contacts::{ContactInfo, ContactView};
use crate::content;
use crate::content::{ContentView, MsgContent};
use crate::outside;
use crate::table::Table;
use crate::text;
use crate::xml;
use crate::xml::{XmlEvent, XmlItem};

verus! {

// ---------------------------------------------------------------------
// Rows
// ---------------------------------------------------------------------

/// A row of a message table.
#[derive(Debug, Clone)]
pub struct MsgRow {
    pub local_id: Cell,
    pub server_id: Cell,
    pub create_time: Cell,
    pub content: Cell,
    pub msg_type: Cell,
    pub sender: Cell,
    pub status: Cell,
    pub source: Cell,
}

/// A row of a message table as a mathematical value.
pub struct MsgRowView {
    pub local_id: CellView,
    pub server_id: CellView,
    pub create_time: CellView,
    pub content: CellView,
    pub msg_type: CellView,
    pub sender: CellView,
    pub status: CellView,
    pub source: CellView,
}

impl View for MsgRow {
    type V = MsgRowView;

    open spec fn view(&self) -> MsgRowView {
        MsgRowView {
            local_id: self.local_id@,
            server_id: self.server_id@,
            create_time: self.create_time@,
            content: self.content@,
            msg_type: self.msg_type@,
            sender: self.sender@,
            status: self.status@,
            source: self.source@,
        }
    }
}

/// A message as it is stored.
#[derive(Debug, Clone)]
pub struct RawMsg {
    pub local_id: i64,
    pub server_id: i64,
    pub create_time: i64,
    pub content: String,
    pub msg_type: i64,
    pub talker: String,
    pub chat: String,
    pub status: i64,
    /// Metadata in XML, such as who is mentioned.
    pub source: String,
    /// The key of the table that the message comes from.
    pub table_key: String,
}

/// A stored message as a mathematical value.
pub struct RawView {
    pub local_id: i64,
    pub server_id: i64,
    pub create_time: i64,
    pub content: Seq<char>,
    pub msg_type: i64,
    pub talker: Seq<char>,
    pub chat: Seq<char>,
    pub status: i64,
    pub source: Seq<char>,
    pub table_key: Seq<char>,
}

impl View for RawMsg {
    type V = RawView;

    open spec fn view(&self) -> RawView {
        RawView {
            local_id: self.local_id,
            server_id: self.server_id,
            create_time: self.create_time,
            content: self.content@,
            msg_type: self.msg_type,
            talker: self.talker@,
            chat: self.chat@,
            status: self.status,
            source: self.source@,
            table_key: self.table_key@,
        }
    }
}

/// The message of a row, still without a chat and a table; none where an
/// integer column holds a value of another kind.
pub open spec fn raw_of(row: MsgRowView) -> Option<RawView> {
    match (
        row.local_id,
        cell::int_or_zero(row.server_id),
        cell::int_or_zero(row.create_time),
        cell::int_or_zero(row.msg_type),
        cell::int_or_zero(row.status),
    ) {
        (
            CellView::Integer(local_id),
            Some(server_id),
            Some(create_time),
            Some(msg_type),
            Some(status),
        ) => Some(
            RawView {
                local_id,
                server_id,
                create_time,
                content: cell::unpacked_text(row.content),
                msg_type,
                talker: cell::plain_text(row.sender),
                chat: Seq::empty(),
                status,
                source: cell::unpacked_text(row.source),
                table_key: Seq::empty(),
            },
        ),
        _ => None,
    }
}

/// The messages of some rows, in order.
pub open spec fn raws_of(rows: Seq<MsgRowView>) -> Seq<RawView>
    decreases rows.len(),
{
    if rows.len() == 0 {
        Seq::empty()
    } else {
        match raw_of(rows.last()) {
            Some(m) => raws_of(rows.drop_last()).push(m),
            None => raws_of(rows.drop_last()),
        }
    }
}

/// A message put into its chat and table.
pub open spec fn placed(m: RawView, chat: Seq<char>, table_key: Seq<char>) -> RawView {
    RawView { chat, table_key, ..m }
}

/// Messages put into their chat and table.
pub open spec fn all_placed(
    msgs: Seq<RawView>,
    chat: Seq<char>,
    table_key: Seq<char>,
) -> Seq<RawView> {
    Seq::new(msgs.len(), |i: int| placed(msgs[i], chat, table_key))
}

/// The greatest of an id and the ids of some messages.
pub open spec fn max_id(start: i64, msgs: Seq<RawView>) -> i64
    decreases msgs.len(),
{
    if msgs.len() == 0 {
        start
    } else {
        let before = max_id(start, msgs.drop_last());
        if msgs.last().local_id > before {
            msgs.last().local_id
        } else {
            before
        }
    }
}

/// The greatest id is no less than the start and any of the ids.
pub proof fn lemma_max_id(start: i64, msgs: Seq<RawView>)
    ensures
        max_id(start, msgs) >= start,
        forall|i: int|
            0 <= i < msgs.len() ==> (#[trigger] msgs[i]).local_id <= max_id(start, msgs),
        max_id(start, msgs) == start || exists|i: int|
            0 <= i < msgs.len() && (#[trigger] msgs[i]).local_id == max_id(start, msgs),
    decreases msgs.len(),
{
    if msgs.len() > 0 {
        let t = msgs.drop_last();
        lemma_max_id(start, t);
        assert forall|i: int| 0 <= i < msgs.len() implies (#[trigger] msgs[i]).local_id <= max_id(
            start,
            msgs,
        ) by {
            if i < t.len() {
                assert(t[i] == msgs[i]);
            }
        }
        if max_id(start, t) != start {
            let i = choose|i: int|
                0 <= i < t.len() && (#[trigger] t[i]).local_id == max_id(start, t);
            assert(msgs[i] == t[i]);
        }
        if msgs.last().local_id > max_id(start, t) {
            assert(msgs[msgs.len() - 1].local_id == max_id(start, msgs));
        }
    }
}

/// The message of a row.
pub fn read_row(row: &MsgRow) -> (r: Option<RawMsg>)
    ensures
        match r {
            Some(m) => raw_of(row@) == Some(m@),
            None => raw_of(row@) is None,
        },
{
    let local_id: i64 = match row.local_id.get_int() {
        Some(n) => n,
        None => {
            return None;
        },
    };
    let server_id: i64 = match row.server_id.get_int_or_zero() {
        Some(n) => n,
        None => {
            return None;
        },
    };
    let create_time: i64 = match row.create_time.get_int_or_zero() {
        Some(n) => n,
        None => {
            return None;
        },
    };
    let content = cell::wcdb_get_text(&row.content);
    let msg_type: i64 = match row.msg_type.get_int_or_zero() {
        Some(n) => n,
        None => {
            return None;
        },
    };
    let talker = row.sender.get_plain_text();
    let status: i64 = match row.status.get_int_or_zero() {
        Some(n) => n,
        None => {
            return None;
        },
    };
    let source = cell::wcdb_get_text(&row.source);
    let m = RawMsg {
        local_id,
        server_id,
        create_time,
        content,
        msg_type,
        talker,
        chat: String::new(),
        status,
        source,
        table_key: String::new(),
    };
    assert(m@.chat =~= Seq::<char>::empty());
    assert(m@.table_key =~= Seq::<char>::empty());
    Some(m)
}

/// The messages of some rows, in order.
pub fn read_rows(rows: &Vec<MsgRow>) -> (r: Vec<RawMsg>)
    ensures
        cell::views_of(r@) == raws_of(cell::views_of(rows@)),
{
    let mut r: Vec<RawMsg> = Vec::new();
    let mut i: usize = 0;
    let ghost all = cell::views_of(rows@);
    assert(cell::views_of(r@) =~= raws_of(all.take(0)));
    while i < rows.len()
        invariant
            0 <= i <= rows@.len(),
            all == cell::views_of(rows@),
            cell::views_of(r@) == raws_of(all.take(i as int)),
        decreases rows@.len() - i,
    {
        assert(all.take(i + 1).drop_last() =~= all.take(i as int));
        assert(all.take(i + 1).last() == rows@[i as int]@);
        let ghost before = r@;
        if let Some(m) = read_row(&rows[i]) {
            r.push(m);
            assert(cell::views_of(r@) =~= cell::views_of(before).push(m@));
        }
        i += 1;
    }
    assert(all.take(all.len() as int) =~= all);
    r
}

/// Appends some messages, put into their chat and table, to a list, and gives
/// the greatest of an id and theirs.
pub fn place_all(
    list: &mut Vec<RawMsg>,
    msgs: &Vec<RawMsg>,
    chat: &str,
    table_key: &str,
    start: i64,
) -> (r: i64)
    ensures
        cell::views_of(final(list)@) == cell::views_of(old(list)@) + all_placed(
            cell::views_of(msgs@),
            chat@,
            table_key@,
        ),
        r == max_id(start, cell::views_of(msgs@)),
{
    let ghost first = cell::views_of(list@);
    let ghost all = cell::views_of(msgs@);
    let mut max: i64 = start;
    let mut i: usize = 0;
    assert(first + all_placed(all.take(0), chat@, table_key@) =~= first);
    while i < msgs.len()
        invariant
            0 <= i <= msgs@.len(),
            all == cell::views_of(msgs@),
            cell::views_of(list@) == first + all_placed(all.take(i as int), chat@, table_key@),
            max == max_id(start, all.take(i as int)),
        decreases msgs@.len() - i,
    {
        assert(all.take(i + 1).drop_last() =~= all.take(i as int));
        assert(all.take(i + 1).last() == msgs@[i as int]@);
        let m = &msgs[i];
        let ghost before = list@;
        let next = RawMsg {
            local_id: m.local_id,
            server_id: m.server_id,
            create_time: m.create_time,
            content: m.content.clone(),
            msg_type: m.msg_type,
            talker: m.talker.clone(),
            chat: chat.to_owned(),
            status: m.status,
            source: m.source.clone(),
            table_key: table_key.to_owned(),
        };
        list.push(next);
        assert(cell::views_of(list@) =~= cell::views_of(before).push(next@));
        assert(next@ == placed(all[i as int], chat@, table_key@));
        assert(first + all_placed(all.take(i + 1), chat@, table_key@) =~= (first + all_placed(
            all.take(i as int),
            chat@,
            table_key@,
        )).push(next@));
        if m.local_id > max {
            max = m.local_id;
        }
        i += 1;
    }
    assert(all.take(all.len() as int) =~= all);
    max
}

// ---------------------------------------------------------------------
// Messages
// ---------------------------------------------------------------------

/// A message.
#[derive(Debug, Clone)]
pub struct DbMessage {
    pub local_id: i64,
    pub server_id: i64,
    pub create_time: i64,
    /// The content as a text.
    pub content: String,
    /// The content, parsed by its type.
    pub parsed: MsgContent,
    pub msg_type: i64,
    /// The account of who speaks.
    pub talker: String,
    /// The name to show for who speaks.
    pub talker_display_name: String,
    /// The chat that the message belongs to.
    pub chat: String,
    /// The name to show for the chat.
    pub chat_display_name: String,
    /// Whether the own account sent the message.
    pub is_self: bool,
    /// Whether the message mentions the own account.
    pub is_at_me: bool,
    /// The accounts that the message mentions.
    pub at_user_list: Vec<String>,
}

/// A message as a mathematical value.
pub struct MessageView {
    pub local_id: i64,
    pub server_id: i64,
    pub create_time: i64,
    pub content: Seq<char>,
    pub parsed: ContentView,
    pub msg_type: i64,
    pub talker: Seq<char>,
    pub talker_display_name: Seq<char>,
    pub chat: Seq<char>,
    pub chat_display_name: Seq<char>,
    pub is_self: bool,
    pub is_at_me: bool,
    pub at_user_list: Seq<Seq<char>>,
}

impl View for DbMessage {
    type V = MessageView;

    open spec fn view(&self) -> MessageView {
        MessageView {
            local_id: self.local_id,
            server_id: self.server_id,
            create_time: self.create_time,
            content: self.content@,
            parsed: self.parsed@,
            msg_type: self.msg_type,
            talker: self.talker@,
            talker_display_name: self.talker_display_name@,
            chat: self.chat@,
            chat_display_name: self.chat_display_name@,
            is_self: self.is_self,
            is_at_me: self.is_at_me,
            at_user_list: text::views(self.at_user_list@),
        }
    }
}

/// Whether a chat is a group chat.
pub open spec fn is_group(chat: Seq<char>) -> bool {
    text::occurs(chat, "@chatroom"@)
}

/// Where the first colon at the end of a line stands, and how long it is with
/// the end of the line, which may be a line feed alone or one behind a carriage
/// return.
pub open spec fn colon_line_end(content: Seq<char>) -> Option<(int, int)> {
    match (text::first_of(content, ":\n"@), text::first_of(content, ":\r\n"@)) {
        (Some(a), Some(b)) => if a < b {
            Some((a, 2))
        } else {
            Some((b, 3))
        },
        (Some(a), None) => Some((a, 2)),
        (None, Some(b)) => Some((b, 3)),
        (None, None) => None,
    }
}

/// The sender that stands in front of a group message's text, and the text
/// behind it.
pub open spec fn embedded_sender(content: Seq<char>) -> Option<(Seq<char>, Seq<char>)> {
    match colon_line_end(content) {
        Some((pos, len)) => {
            let prefix = content.take(pos);
            if prefix.len() > 0 && !prefix.contains(' ') && bytes::byte_len(prefix) < 50 {
                Some((prefix, content.skip(pos + len)))
            } else {
                None
            }
        },
        None => None,
    }
}

/// Sender and text of a message: in a group chat a sender that is missing is
/// taken from the text.
pub open spec fn sender_and_text(m: RawView) -> (Seq<char>, Seq<char>) {
    if m.talker.len() == 0 && is_group(m.chat) && embedded_sender(m.content) is Some {
        embedded_sender(m.content)->0
    } else {
        (m.talker, m.content)
    }
}

/// Whether the own account sent a message: bit one of its status marks what
/// was received, and a system notice is nobody's.
pub open spec fn from_self(status: int, msg_type: int) -> bool {
    &&& (status / 2) % 2 == 0
    &&& content::base_type(msg_type) != 10000
    &&& content::base_type(msg_type) != 10002
}

/// The sender of a message, filled in where it is missing: the own account for
/// an own message, the other side for a received one outside group chats.
pub open spec fn filled_sender(
    talker: Seq<char>,
    own: bool,
    chat: Seq<char>,
    me: Seq<char>,
) -> Seq<char> {
    if talker.len() > 0 {
        talker
    } else if own {
        me
    } else if !is_group(chat) {
        chat
    } else {
        talker
    }
}

/// The pieces of a list that hold more than white space, trimmed.
pub open spec fn trimmed_pieces(pieces: Seq<Seq<char>>) -> Seq<Seq<char>>
    decreases pieces.len(),
{
    if pieces.len() == 0 {
        Seq::empty()
    } else {
        let p = text::trim(pieces.last());
        if p.len() > 0 {
            trimmed_pieces(pieces.drop_last()).push(p)
        } else {
            trimmed_pieces(pieces.drop_last())
        }
    }
}

/// The accounts that a message's metadata mentions.
pub open spec fn mentioned(source: Seq<XmlItem>) -> Seq<Seq<char>> {
    match xml::text_in(source, encode_utf8("atuserlist"@), false) {
        Some(s) => trimmed_pieces(text::split(s, ',')),
        None => Seq::empty(),
    }
}

/// The message that a stored one gives, where the parsed content and the
/// mentions are given.
pub open spec fn assembled(
    m: RawView,
    me: Seq<char>,
    my_name: Seq<char>,
    contacts: Map<Seq<char>, ContactView>,
    parsed: ContentView,
    at_user_list: Seq<Seq<char>>,
) -> MessageView {
    let (sender, content) = sender_and_text(m);
    let own = from_self(m.status as int, m.msg_type as int);
    let talker = filled_sender(sender, own, m.chat, me);
    MessageView {
        local_id: m.local_id,
        server_id: m.server_id,
        create_time: m.create_time,
        content,
        parsed,
        msg_type: m.msg_type,
        talker,
        talker_display_name: if own {
            my_name
        } else {
            contacts::name_of(contacts, talker)
        },
        chat: m.chat,
        chat_display_name: contacts::name_of(contacts, m.chat),
        is_self: own,
        is_at_me: me.len() > 0 && at_user_list.contains(me),
        at_user_list,
    }
}

/// The message that a stored one gives, where the XML readings of its text
/// and of its metadata are given.
pub open spec fn message_with(
    m: RawView,
    me: Seq<char>,
    my_name: Seq<char>,
    contacts: Map<Seq<char>, ContactView>,
    doc: Seq<XmlItem>,
    source: Seq<XmlItem>,
) -> MessageView {
    assembled(
        m,
        me,
        my_name,
        contacts,
        content::content_of(m.msg_type, sender_and_text(m).1, doc),
        mentioned(source),
    )
}

/// The message that a stored one gives.
pub open spec fn message_of(
    m: RawView,
    me: Seq<char>,
    my_name: Seq<char>,
    contacts: Map<Seq<char>, ContactView>,
) -> MessageView {
    message_with(
        m,
        me,
        my_name,
        contacts,
        outside::xml_items(sender_and_text(m).1),
        outside::xml_items(m.source),
    )
}

/// The messages that some stored ones give.
pub open spec fn messages_of(
    msgs: Seq<RawView>,
    me: Seq<char>,
    my_name: Seq<char>,
    contacts: Map<Seq<char>, ContactView>,
) -> Seq<MessageView> {
    Seq::new(msgs.len(), |i: int| message_of(msgs[i], me, my_name, contacts))
}

/// The contents of the own messages among some, in order.
pub open spec fn own_contents(msgs: Seq<MessageView>) -> Seq<Seq<char>>
    decreases msgs.len(),
{
    if msgs.len() == 0 {
        Seq::empty()
    } else if msgs.last().is_self {
        own_contents(msgs.drop_last()).push(msgs.last().content)
    } else {
        own_contents(msgs.drop_last())
    }
}

/// Whether a text holds a blank.
fn has_blank(v: &Vec<char>, end: usize) -> (r: bool)
    requires
        end <= v@.len(),
    ensures
        r == v@.take(end as int).contains(' '),
{
    let mut i: usize = 0;
    while i < end
        invariant
            0 <= i <= end <= v@.len(),
            forall|j: int| 0 <= j < i ==> v@[j] != ' ',
        decreases end - i,
    {
        if v[i] == ' ' {
            assert(v@.take(end as int)[i as int] == ' ');
            return true;
        }
        i += 1;
    }
    false
}

/// The sender that stands in front of a group message's text, and the text
/// behind it.
pub fn split_sender(content: &str) -> (r: Option<(String, String)>)
    ensures
        match r {
            Some(p) => embedded_sender(content@) == Some((p.0@, p.1@)),
            None => embedded_sender(content@) is None,
        },
{
    let mark: Option<(usize, usize)> = match (
        text::find(content, ":\n"),
        text::find(content, ":\r\n"),
    ) {
        (Some(a), Some(b)) => if a < b {
            Some((a, 2))
        } else {
            Some((b, 3))
        },
        (Some(a), None) => Some((a, 2)),
        (None, Some(b)) => Some((b, 3)),
        (None, None) => None,
    };
    match mark {
        Some((pos, len)) => {
            let v = text::to_chars(content);
            proof {
                reveal_strlit(":\n");
                reveal_strlit(":\r\n");
                text::lemma_first_of(content@, ":\n"@);
                text::lemma_first_of(content@, ":\r\n"@);
            }
            assert(pos + len <= v.len());
            let prefix = text::cut(&v, 0, pos);
            assert(prefix@ =~= content@.take(pos as int));
            if pos > 0 && !has_blank(&v, pos) && bytes::len_bytes(prefix.as_str()) < 50 {
                let rest = text::cut(&v, pos + len, v.len());
                assert(rest@ =~= content@.skip(pos + len));
                Some((prefix, rest))
            } else {
                None
            }
        },
        None => None,
    }
}

/// Whether the own account sent a message.
pub fn is_own(status: i64, msg_type: i64) -> (r: bool)
    ensures
        r == from_self(status as int, msg_type as int),
{
    let base: i32 = content::base_of(msg_type);
    let bit: i64 = status & 0x02;
    assert(((status & 0x02) == 0) == ((status / 2) % 2 == 0)) by (bit_vector);
    bit == 0 && base != 10000 && base != 10002
}

/// The accounts that a message's metadata mentions, from its XML events.
pub fn mentions_from(events: &Vec<XmlEvent>) -> (r: Vec<String>)
    ensures
        text::views(r@) == mentioned(xml::items(events@)),
{
    let mut r: Vec<String> = Vec::new();
    match xml::text_in_events(events, "atuserlist") {
        Some(s) => {
            let pieces = text::split_on(s.as_str(), ',');
            let ghost all = text::views(pieces@);
            let mut i: usize = 0;
            assert(text::views(r@) =~= trimmed_pieces(all.take(0)));
            while i < pieces.len()
                invariant
                    0 <= i <= pieces@.len(),
                    all == text::views(pieces@),
                    text::views(r@) == trimmed_pieces(all.take(i as int)),
                decreases pieces@.len() - i,
            {
                assert(all.take(i + 1).drop_last() =~= all.take(i as int));
                let piece = text::trimmed(pieces[i].as_str());
                let ghost before = r@;
                if !piece.as_str().is_empty() {
                    r.push(piece);
                    assert(text::views(r@) =~= text::views(before).push(piece@));
                }
                i += 1;
            }
            assert(all.take(all.len() as int) =~= all);
        },
        None => {},
    }
    r
}

/// Sender and text of a stored message.
fn take_sender(m: &RawMsg) -> (r: (String, String))
    ensures
        (r.0@, r.1@) == sender_and_text(m@),
{
    if m.talker.as_str().is_empty() && text::contains(m.chat.as_str(), "@chatroom") {
        if let Some(p) = split_sender(m.content.as_str()) {
            return p;
        }
    }
    (m.talker.clone(), m.content.clone())
}

/// Puts a message together.
fn assemble(
    m: &RawMsg,
    sender: String,
    content: String,
    me: &str,
    my_name: &str,
    contacts: &Table<ContactInfo>,
    parsed: MsgContent,
    at_user_list: Vec<String>,
) -> (r: DbMessage)
    requires
        contacts.wf(),
        (sender@, content@) == sender_and_text(m@),
    ensures
        r@ == assembled(m@, me@, my_name@, contacts@, parsed@, text::views(at_user_list@)),
{
    let own = is_own(m.status, m.msg_type);
    let talker = if !sender.as_str().is_empty() {
        sender
    } else if own {
        me.to_owned()
    } else if !text::contains(m.chat.as_str(), "@chatroom") {
        m.chat.clone()
    } else {
        sender
    };
    let talker_display_name = if own {
        my_name.to_owned()
    } else {
        contacts::resolve_name(contacts, talker.as_str())
    };
    let chat_display_name = contacts::resolve_name(contacts, m.chat.as_str());
    let is_at_me = !me.is_empty() && text::in_list(&at_user_list, me);
    DbMessage {
        local_id: m.local_id,
        server_id: m.server_id,
        create_time: m.create_time,
        content,
        parsed,
        msg_type: m.msg_type,
        talker,
        talker_display_name,
        chat: m.chat.clone(),
        chat_display_name,
        is_self: own,
        is_at_me,
        at_user_list,
    }
}

/// The message that a stored one gives, from the XML events of its text and of
/// its metadata.
pub fn message_from(
    m: &RawMsg,
    me: &str,
    my_name: &str,
    contacts: &Table<ContactInfo>,
    doc: &Vec<XmlEvent>,
    source: &Vec<XmlEvent>,
) -> (r: DbMessage)
    requires
        contacts.wf(),
    ensures
        r@ == message_with(
            m@,
            me@,
            my_name@,
            contacts@,
            xml::items(doc@),
            xml::items(source@),
        ),
{
    let (sender, content) = take_sender(m);
    let parsed = content::content_from(m.msg_type, content.as_str(), doc);
    let at_user_list = mentions_from(source);
    assemble(m, sender, content, me, my_name, contacts, parsed, at_user_list)
}

/// The message that a stored one gives.
pub fn read_message(
    m: &RawMsg,
    me: &str,
    my_name: &str,
    contacts: &Table<ContactInfo>,
) -> (r: DbMessage)
    requires
        contacts.wf(),
    ensures
        r@ == message_of(m@, me@, my_name@, contacts@),
{
    let (sender, content) = take_sender(m);
    let parsed = content::parse_msg_content(m.msg_type, content.as_str());
    let at_user_list = mentions_from(&xml::read_events(m.source.as_str()));
    assemble(m, sender, content, me, my_name, contacts, parsed, at_user_list)
}

/// The messages that some stored ones give, and the contents of the own ones.
pub fn read_messages(
    msgs: &Vec<RawMsg>,
    me: &str,
    my_name: &str,
    contacts: &Table<ContactInfo>,
) -> (r: (Vec<DbMessage>, Vec<String>))
    requires
        contacts.wf(),
    ensures
        cell::views_of(r.0@) == messages_of(cell::views_of(msgs@), me@, my_name@, contacts@),
        text::views(r.1@) == own_contents(cell::views_of(r.0@)),
{
    let mut out: Vec<DbMessage> = Vec::new();
    let mut sent: Vec<String> = Vec::new();
    let mut i: usize = 0;
    assert(text::views(sent@) =~= own_contents(cell::views_of(out@)));
    while i < msgs.len()
        invariant
            0 <= i <= msgs@.len(),
            contacts.wf(),
            out@.len() == i,
            forall|j: int|
                0 <= j < i ==> (#[trigger] out@[j])@ == message_of(
                    msgs@[j]@,
                    me@,
                    my_name@,
                    contacts@,
                ),
            text::views(sent@) == own_contents(cell::views_of(out@)),
        decreases msgs@.len() - i,
    {
        let m = read_message(&msgs[i], me, my_name, contacts);
        let ghost before = out@;
        let ghost sent_before = sent@;
        if m.is_self {
            sent.push(m.content.clone());
            assert(text::views(sent@) =~= text::views(sent_before).push(m@.content));
        }
        out.push(m);
        assert(cell::views_of(out@).drop_last() =~= cell::views_of(before));
        i += 1;
    }
    (out, sent)
}

// ---------------------------------------------------------------------
// Laws
// ---------------------------------------------------------------------

/// Whether a column holds a number, or nothing, which counts as zero.
pub open spec fn numbers(c: CellView, n: i64) -> bool {
    c == CellView::Integer(n) || c is Null && n == 0
}

/// Whether a column holds a plain text, or nothing, which counts as empty.
pub open spec fn says(c: CellView, s: Seq<char>) -> bool {
    c == CellView::Text(s) || c is Null && s.len() == 0
}

/// A row gives a message with the value of each field's own column, and without
/// a chat yet.
pub proof fn law_row_has_its_columns(
    row: MsgRowView,
    id: i64,
    server: i64,
    time: i64,
    text: Seq<char>,
    kind: i64,
    sender: Seq<char>,
    status: i64,
    source: Seq<char>,
)
    requires
        row.local_id == CellView::Integer(id),
        numbers(row.server_id, server),
        numbers(row.create_time, time),
        says(row.content, text),
        numbers(row.msg_type, kind),
        says(row.sender, sender),
        numbers(row.status, status),
        says(row.source, source),
    ensures
        raw_of(row) matches Some(m) && {
            &&& m.local_id == id
            &&& m.server_id == server
            &&& m.create_time == time
            &&& m.content == text
            &&& m.msg_type == kind
            &&& m.talker == sender
            &&& m.status == status
            &&& m.source == source
            &&& m.chat.len() == 0
            &&& m.table_key.len() == 0
        },
{
    if row.content is Null {
        assert(text =~= Seq::empty());
    }
    if row.sender is Null {
        assert(sender =~= Seq::empty());
    }
    if row.source is Null {
        assert(source =~= Seq::empty());
    }
}

/// A row gives a message only where its id is a number and the other numbers are
/// such or missing; whatever its texts are, it then does.
pub proof fn law_only_sound_rows_give_messages(row: MsgRowView)
    ensures
        raw_of(row) is Some <==> row.local_id is Integer && (row.server_id is Integer
            || row.server_id is Null) && (row.create_time is Integer || row.create_time is Null) && (
        row.msg_type is Integer || row.msg_type is Null) && (row.status is Integer
            || row.status is Null),
        raw_of(row) matches Some(m) ==> row.local_id == CellView::Integer(m.local_id) && numbers(
            row.server_id,
            m.server_id,
        ) && numbers(row.create_time, m.create_time) && numbers(row.msg_type, m.msg_type)
            && numbers(row.status, m.status),
{
}

/// Packed texts of a row are unpacked.
pub proof fn law_packed_columns_are_unpacked(row: MsgRowView, b: Seq<u8>)
    ensures
        raw_of(row) matches Some(m) ==> {
            &&& row.content == CellView::Blob(b) ==> m.content == content::blob_text(b)
            &&& row.source == CellView::Blob(b) ==> m.source == content::blob_text(b)
            &&& row.sender == CellView::Blob(b) ==> m.talker == outside::utf8_lossy(b)
        },
{
}

/// Rows one behind the other give their messages one behind the other, each by
/// itself.
pub proof fn law_rows_one_by_one(a: Seq<MsgRowView>, b: Seq<MsgRowView>, row: MsgRowView)
    ensures
        raws_of(a + b) == raws_of(a) + raws_of(b),
        match raw_of(row) {
            Some(m) => raws_of(seq![row]) == seq![m],
            None => raws_of(seq![row]) == Seq::<RawView>::empty(),
        },
    decreases b.len(),
{
    if b.len() == 0 {
        assert(a + b =~= a);
        assert(raws_of(a) + raws_of(b) =~= raws_of(a));
    } else {
        law_rows_one_by_one(a, b.drop_last(), row);
        assert((a + b).drop_last() =~= a + b.drop_last());
        assert(raws_of(a + b) =~= raws_of(a) + raws_of(b));
    }
    assert(seq![row].drop_last() =~= Seq::empty());
    assert(raws_of(seq![row].drop_last()) =~= Seq::empty());
    if let Some(m) = raw_of(row) {
        assert(raws_of(seq![row]) =~= seq![m]);
    }
}

/// Putting messages into a chat changes nothing but their chat and table, and
/// neither their number nor their order.
pub proof fn law_placing_keeps_messages(
    msgs: Seq<RawView>,
    chat: Seq<char>,
    key: Seq<char>,
    i: int,
)
    requires
        0 <= i < msgs.len(),
    ensures
        all_placed(msgs, chat, key).len() == msgs.len(),
        ({
            let m = all_placed(msgs, chat, key)[i];
            &&& m.chat == chat
            &&& m.table_key == key
            &&& m.local_id == msgs[i].local_id
            &&& m.server_id == msgs[i].server_id
            &&& m.create_time == msgs[i].create_time
            &&& m.content == msgs[i].content
            &&& m.msg_type == msgs[i].msg_type
            &&& m.talker == msgs[i].talker
            &&& m.status == msgs[i].status
            &&& m.source == msgs[i].source
        }),
{
}

/// A message is the own account's exactly where the second lowest bit of its
/// status is not set and its kind, in the low sixteen bits of its type number,
/// is not that of a system notice.
pub proof fn law_own_messages(status: i64, msg_type: i64)
    ensures
        from_self(status as int, msg_type as int) <==> status & 2 == 0 && msg_type & 0xFFFF
            != 10000 && msg_type & 0xFFFF != 10002,
{
    assert(((status & 2) == 0) == ((status / 2) % 2 == 0)) by (bit_vector);
    assert((msg_type & 0xFFFF) == msg_type % 0x10000) by (bit_vector);
}

/// Whose message it is depends on its status alone, whatever its kind, system
/// notices aside, which are nobody's.
pub proof fn law_kinds_have_the_same_owner(
    a: RawView,
    b: RawView,
    me: Seq<char>,
    my_name: Seq<char>,
    contacts: Map<Seq<char>, ContactView>,
)
    requires
        a.status == b.status,
        a.msg_type & 0xFFFF != 10000 && a.msg_type & 0xFFFF != 10002,
        b.msg_type & 0xFFFF != 10000 && b.msg_type & 0xFFFF != 10002,
    ensures
        message_of(a, me, my_name, contacts).is_self == message_of(
            b,
            me,
            my_name,
            contacts,
        ).is_self,
        message_of(a, me, my_name, contacts).is_self <==> a.status & 2 == 0,
{
    law_own_messages(a.status, a.msg_type);
    law_own_messages(b.status, b.msg_type);
}

/// A message keeps id, time, type and chat of the stored one, and shows the
/// chat by its name.
pub proof fn law_message_keeps_its_data(
    m: RawView,
    me: Seq<char>,
    my_name: Seq<char>,
    contacts: Map<Seq<char>, ContactView>,
)
    ensures
        ({
            let r = message_of(m, me, my_name, contacts);
            &&& r.local_id == m.local_id
            &&& r.server_id == m.server_id
            &&& r.create_time == m.create_time
            &&& r.msg_type == m.msg_type
            &&& r.chat == m.chat
            &&& contacts.dom().contains(m.chat) ==> r.chat_display_name
                == contacts[m.chat].display_name
            &&& !contacts.dom().contains(m.chat) ==> r.chat_display_name == m.chat
            &&& r.is_self <==> m.status & 2 == 0 && m.msg_type & 0xFFFF != 10000 && m.msg_type
                & 0xFFFF != 10002
        }),
{
    law_own_messages(m.status, m.msg_type);
}

/// What a message says is parsed by its type number from the text that remains
/// once a sender was taken off.
pub proof fn law_message_is_parsed(
    m: RawView,
    me: Seq<char>,
    my_name: Seq<char>,
    contacts: Map<Seq<char>, ContactView>,
)
    ensures
        ({
            let r = message_of(m, me, my_name, contacts);
            r.parsed == content::content_of(
                m.msg_type,
                r.content,
                outside::xml_items(r.content),
            )
        }),
{
}

/// Whether a chat's name has the mark of group chats at some place.
pub open spec fn has_room_mark(chat: Seq<char>, at: int) -> bool {
    0 <= at <= chat.len() - 9 && chat.subrange(at, at + 9) == "@chatroom"@
}

/// A chat is a group chat exactly where the mark stands somewhere in its name.
pub proof fn law_group_chats_are_marked(chat: Seq<char>)
    ensures
        is_group(chat) <==> exists|at: int| #[trigger] has_room_mark(chat, at),
{
    reveal_strlit("@chatroom");
    if is_group(chat) {
        let at = choose|at: int| text::occurs_at(chat, "@chatroom"@, at);
        assert(has_room_mark(chat, at));
    }
    if exists|at: int| #[trigger] has_room_mark(chat, at) {
        let at = choose|at: int| #[trigger] has_room_mark(chat, at);
        assert(text::occurs_at(chat, "@chatroom"@, at));
    }
}

/// Who speaks, and as whom they are shown: a sender that is stored stays; where
/// none is, the own account speaks in an own message, the other side in one
/// received outside group chats, and nobody is named in one received in a group
/// chat whose text names none. An own message shows the own name, any other the
/// name of who speaks.
pub proof fn law_who_speaks(
    m: RawView,
    me: Seq<char>,
    my_name: Seq<char>,
    contacts: Map<Seq<char>, ContactView>,
)
    ensures
        ({
            let r = message_of(m, me, my_name, contacts);
            &&& m.talker.len() > 0 ==> r.talker == m.talker && r.content == m.content
            &&& !is_group(m.chat) ==> r.content == m.content
            &&& m.talker.len() == 0 && !is_group(m.chat) && r.is_self ==> r.talker == me
            &&& m.talker.len() == 0 && !is_group(m.chat) && !r.is_self ==> r.talker == m.chat
            &&& m.talker.len() == 0 && is_group(m.chat) && embedded_sender(m.content) is None ==> {
                &&& r.content == m.content
                &&& r.is_self ==> r.talker == me
                &&& !r.is_self ==> r.talker.len() == 0
            }
            &&& r.is_self ==> r.talker_display_name == my_name
            &&& !r.is_self && contacts.dom().contains(r.talker) ==> r.talker_display_name
                == contacts[r.talker].display_name
            &&& !r.is_self && !contacts.dom().contains(r.talker) ==> r.talker_display_name
                == r.talker
        }),
{
}

/// Whether a text can be the sender in front of a group message.
pub open spec fn may_be_sender(s: Seq<char>) -> bool {
    s.len() > 0 && !s.contains(' ') && !s.contains(':') && encode_utf8(s).len() < 50
}

proof fn lemma_no_mark_in_sender(sender: Seq<char>, rest: Seq<char>, mark: Seq<char>, at: int)
    requires
        !sender.contains(':'),
        mark.len() > 0,
        mark[0] == ':',
        text::occurs_at(sender + rest, mark, at),
    ensures
        at >= sender.len(),
{
    let content = sender + rest;
    if at < sender.len() {
        assert(content.subrange(at, at + mark.len())[0] == content[at]);
        assert(content[at] == sender[at]);
        assert(sender.contains(sender[at]));
    }
}

proof fn lemma_first_mark(sender: Seq<char>, mark: Seq<char>, said: Seq<char>)
    requires
        !sender.contains(':'),
        mark.len() > 0,
        mark[0] == ':',
    ensures
        text::first_of(sender + mark + said, mark) == Some(sender.len() as int),
{
    let content = sender + mark + said;
    let n = sender.len() as int;
    assert(content =~= sender + (mark + said));
    assert(content.subrange(n, n + mark.len()) =~= mark);
    assert forall|j: int| 0 <= j < n implies !text::occurs_at(content, mark, j) by {
        if text::occurs_at(content, mark, j) {
            lemma_no_mark_in_sender(sender, mark + said, mark, j);
        }
    }
    text::lemma_first_of_unique(content, mark, n);
}

proof fn lemma_other_mark_later(
    sender: Seq<char>,
    mark: Seq<char>,
    said: Seq<char>,
    other: Seq<char>,
)
    requires
        !sender.contains(':'),
        mark.len() >= 2,
        other.len() >= 2,
        mark[0] == ':',
        other[0] == ':',
        mark[1] != other[1],
    ensures
        text::first_of(sender + mark + said, other) matches Some(k) ==> k > sender.len(),
{
    let content = sender + mark + said;
    let n = sender.len() as int;
    assert(content =~= sender + (mark + said));
    text::lemma_first_of(content, other);
    if let Some(k) = text::first_of(content, other) {
        lemma_no_mark_in_sender(sender, mark + said, other, k);
        if k == n {
            assert(content.subrange(n, n + other.len())[1] == content[n + 1]);
            assert(content[n + 1] == mark[1]);
        }
    }
}

proof fn lemma_embedded(content: Seq<char>, sender: Seq<char>, said: Seq<char>)
    requires
        may_be_sender(sender),
        content == sender + seq![':', '\n'] + said || content == sender + seq![
            ':',
            '\r',
            '\n',
        ] + said,
    ensures
        embedded_sender(content) == Some((sender, said)),
{
    let n = sender.len() as int;
    let short = seq![':', '\n'];
    let long = seq![':', '\r', '\n'];
    reveal_strlit(":\n");
    reveal_strlit(":\r\n");
    assert(":\n"@ =~= short);
    assert(":\r\n"@ =~= long);
    bytes::lemma_byte_len(sender);
    assert(content.take(n) =~= sender);
    if content == sender + short + said {
        lemma_first_mark(sender, short, said);
        lemma_other_mark_later(sender, short, said, long);
        assert(colon_line_end(content) == Some((n, 2int)));
        assert(content.skip(n + 2) =~= said);
    } else {
        lemma_first_mark(sender, long, said);
        lemma_other_mark_later(sender, long, said, short);
        assert(colon_line_end(content) == Some((n, 3int)));
        assert(content.skip(n + 3) =~= said);
    }
}

/// In a group chat a sender in front of the text, on a line that a colon ends,
/// is taken for who speaks, and the rest for what is said, whichever of the two
/// ends of lines stands between them.
pub proof fn law_group_sender_is_split_off(
    m: RawView,
    me: Seq<char>,
    my_name: Seq<char>,
    contacts: Map<Seq<char>, ContactView>,
    sender: Seq<char>,
    said: Seq<char>,
)
    requires
        m.talker.len() == 0,
        is_group(m.chat),
        may_be_sender(sender),
        m.content == sender + seq![':', '\n'] + said || m.content == sender + seq![
            ':',
            '\r',
            '\n',
        ] + said,
    ensures
        message_of(m, me, my_name, contacts).talker == sender,
        message_of(m, me, my_name, contacts).content == said,
{
    lemma_embedded(m.content, sender, said);
}

/// A sender that is split off stood in front of the text with a colon and the
/// end of a line behind it, has no blank and fewer than fifty bytes; nothing
/// else is lost of the text.
pub proof fn law_split_sender_stood_there(content: Seq<char>)
    ensures
        embedded_sender(content) matches Some((sender, said)) ==> {
            &&& content == sender + seq![':', '\n'] + said || content == sender + seq![
                ':',
                '\r',
                '\n',
            ] + said
            &&& sender.len() > 0
            &&& !sender.contains(' ')
            &&& encode_utf8(sender).len() < 50
        },
{
    if let Some((sender, said)) = embedded_sender(content) {
        reveal_strlit(":\n");
        reveal_strlit(":\r\n");
        text::lemma_first_of(content, ":\n"@);
        text::lemma_first_of(content, ":\r\n"@);
        let (pos, len) = colon_line_end(content)->0;
        bytes::lemma_byte_len(sender);
        if len == 2 {
            assert(content.subrange(pos, pos + 2) =~= seq![':', '\n']);
            assert(content =~= sender + content.subrange(pos, pos + 2) + said);
        } else {
            assert(content.subrange(pos, pos + 3) =~= seq![':', '\r', '\n']);
            assert(content =~= sender + content.subrange(pos, pos + 3) + said);
        }
    }
}

/// A message mentions the own account exactly where that is one of the accounts
/// it lists, at whatever place; nobody without an account is mentioned.
pub proof fn law_mentions_of_me(
    m: RawView,
    me: Seq<char>,
    my_name: Seq<char>,
    contacts: Map<Seq<char>, ContactView>,
)
    ensures
        ({
            let r = message_of(m, me, my_name, contacts);
            r.is_at_me <==> me.len() > 0 && exists|i: int|
                0 <= i < r.at_user_list.len() && #[trigger] r.at_user_list[i] == me
        }),
{
    lemma_is_listed(message_of(m, me, my_name, contacts).at_user_list, me);
}

proof fn lemma_is_listed(list: Seq<Seq<char>>, who: Seq<char>)
    ensures
        list.contains(who) <==> exists|i: int| 0 <= i < list.len() && #[trigger] list[i] == who,
{
}

/// Whether a text can stand in a list of accounts: it has no comma, and neither
/// begins nor ends with white space.
pub open spec fn may_be_listed(s: Seq<char>) -> bool {
    s.len() > 0 && !s.contains(',') && !text::is_space(s[0]) && !text::is_space(s.last())
}

proof fn lemma_pieces_stay(list: Seq<Seq<char>>)
    requires
        forall|i: int| 0 <= i < list.len() ==> may_be_listed(#[trigger] list[i]),
    ensures
        trimmed_pieces(list) == list,
    decreases list.len(),
{
    if list.len() > 0 {
        let front = list.drop_last();
        assert forall|i: int| 0 <= i < front.len() implies may_be_listed(#[trigger] front[i]) by {
            assert(front[i] == list[i]);
        }
        lemma_pieces_stay(front);
        assert(may_be_listed(list[list.len() - 1]));
        text::law_trimmed_stays(list.last());
        assert(front.push(list.last()) =~= list);
    }
}

/// The accounts that a message mentions are those that stand, with commas
/// between them, in the list of its metadata: all of them, in order, and no
/// others.
pub proof fn law_mentions_are_listed(
    m: RawView,
    me: Seq<char>,
    my_name: Seq<char>,
    contacts: Map<Seq<char>, ContactView>,
    list: Seq<Seq<char>>,
)
    requires
        list.len() > 0,
        forall|i: int| 0 <= i < list.len() ==> may_be_listed(#[trigger] list[i]),
        xml::gives_text(
            outside::xml_items(m.source),
            encode_utf8("atuserlist"@),
            text::join(list, seq![',']),
        ),
    ensures
        message_of(m, me, my_name, contacts).at_user_list == list,
{
    xml::law_text_is_read(
        outside::xml_items(m.source),
        encode_utf8("atuserlist"@),
        text::join(list, seq![',']),
    );
    assert forall|i: int| 0 <= i < list.len() implies !(#[trigger] list[i]).contains(',') by {
        assert(may_be_listed(list[i]));
    }
    text::law_joined_splits(list, ',');
    lemma_pieces_stay(list);
}

/// A message whose metadata has no list mentions nobody.
pub proof fn law_no_list_no_mentions(
    m: RawView,
    me: Seq<char>,
    my_name: Seq<char>,
    contacts: Map<Seq<char>, ContactView>,
)
    requires
        xml::gives_no_text(outside::xml_items(m.source), encode_utf8("atuserlist"@)),
    ensures
        message_of(m, me, my_name, contacts).at_user_list.len() == 0,
        !message_of(m, me, my_name, contacts).is_at_me,
{
    xml::law_missing_text_is_not_read(outside::xml_items(m.source), encode_utf8("atuserlist"@));
}

/// Blanks around an account in a list do not count, and blanks alone are no
/// account; pieces are read one by one.
pub proof fn law_pieces_one_by_one(a: Seq<Seq<char>>, b: Seq<Seq<char>>, s: Seq<char>)
    ensures
        trimmed_pieces(a + b) == trimmed_pieces(a) + trimmed_pieces(b),
        text::all_space(s) ==> trimmed_pieces(seq![s]) == Seq::<Seq<char>>::empty(),
        !text::all_space(s) ==> trimmed_pieces(seq![s]) == seq![text::trim(s)],
    decreases b.len(),
{
    if b.len() == 0 {
        assert(a + b =~= a);
        assert(trimmed_pieces(a) + trimmed_pieces(b) =~= trimmed_pieces(a));
    } else {
        law_pieces_one_by_one(a, b.drop_last(), s);
        assert((a + b).drop_last() =~= a + b.drop_last());
        assert(trimmed_pieces(a + b) =~= trimmed_pieces(a) + trimmed_pieces(b));
    }
    let parts = text::law_trim_takes_white_space(s);
    assert(seq![s].drop_last() =~= Seq::empty());
    assert(trimmed_pieces(seq![s].drop_last()) =~= Seq::empty());
    if !text::all_space(s) {
        assert(trimmed_pieces(seq![s]) =~= seq![text::trim(s)]);
    }
}

/// Each stored message gives one message, in order, whatever the others are.
pub proof fn law_messages_one_by_one(
    msgs: Seq<RawView>,
    me: Seq<char>,
    my_name: Seq<char>,
    contacts: Map<Seq<char>, ContactView>,
    i: int,
)
    requires
        0 <= i < msgs.len(),
    ensures
        messages_of(msgs, me, my_name, contacts).len() == msgs.len(),
        messages_of(msgs, me, my_name, contacts)[i].local_id == msgs[i].local_id,
        messages_of(msgs, me, my_name, contacts)[i] == message_of(msgs[i], me, my_name, contacts),
{
}

/// What was sent is told of the own messages alone, of each of them, in order.
pub proof fn law_own_contents_one_by_one(a: Seq<MessageView>, b: Seq<MessageView>, m: MessageView)
    ensures
        own_contents(a + b) == own_contents(a) + own_contents(b),
        m.is_self ==> own_contents(seq![m]) == seq![m.content],
        !m.is_self ==> own_contents(seq![m]) == Seq::<Seq<char>>::empty(),
    decreases b.len(),
{
    if b.len() == 0 {
        assert(a + b =~= a);
        assert(own_contents(a) + own_contents(b) =~= own_contents(a));
    } else {
        law_own_contents_one_by_one(a, b.drop_last(), m);
        assert((a + b).drop_last() =~= a + b.drop_last());
        assert(own_contents(a + b) =~= own_contents(a) + own_contents(b));
    }
    assert(seq![m].drop_last() =~= Seq::empty());
    assert(own_contents(seq![m].drop_last()) =~= Seq::empty());
    if m.is_self {
        assert(own_contents(seq![m]) =~= seq![m.content]);
    }
}

} // verus!
