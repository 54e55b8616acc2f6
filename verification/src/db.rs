//! The state kept about the databases of one account.
use vstd::prelude::*;
use crate::cell;
use crate::contacts;
use crate::contacts::{ContactInfo, ContactRow, DbSessionInfo, RoomRow, SessionRow};
use crate::keys;
use crate::keys::HexError;
use crate::marking::Marking;
use crate::messages;
use crate::messages::DbMessage;
use crate::number;
use crate::poll;
use crate::poll::{Found, Poll, World};
use crate::schema::{MetaView, TableMeta};
use crate::table;
use crate::table::Table;
use crate::text;

verus! {

/// Why a key is refused.
#[derive(Debug, Clone)]
pub enum DbError {
    /// It is no text of hexadecimal digits.
    KeyFormat(HexError),
    /// It has a length other than 32 or 48 bytes.
    KeyLength(usize),
}

impl DbError {
    /// This reason in words.
    pub fn text(&self) -> (r: String)
        ensures
            r@ == match self {
                DbError::KeyFormat(_) => "密钥 hex 格式错误"@,
                DbError::KeyLength(n) => "密钥长度必须为 32 或 48 字节, 实际: "@ + number::dec(
                    *n as nat,
                ),
            },
    {
        match self {
            DbError::KeyFormat(_) => "密钥 hex 格式错误".to_owned(),
            DbError::KeyLength(n) => {
                let mut s = "密钥长度必须为 32 或 48 字节, 实际: ".to_owned();
                s.append(number::decimal(*n as u64).as_str());
                s
            },
        }
    }
}

/// What is known about the databases of one account.
#[derive(Debug, Clone)]
pub struct DbManager {
    /// The default key, as a text and as bytes.
    pub key_hex: String,
    pub key_bytes: Vec<u8>,
    /// The own account, empty where it is not known.
    pub self_wxid: String,
    /// The name to show for the own account.
    pub self_display_name: String,
    /// Contacts by account.
    pub contacts: Table<ContactInfo>,
    /// The greatest id seen, by the key of the table.
    pub watermarks: Table<i64>,
    /// How tables are read, by the key of the table.
    pub table_meta_cache: Table<TableMeta>,
}

/// A copy of a map of numbers.
fn copy_marks(t: &Table<i64>) -> (r: Table<i64>)
    requires
        t.wf(),
    ensures
        r.wf(),
        r@ == t@,
{
    let mut r: Table<i64> = Table::new();
    let mut i: usize = 0;
    assert(t.entries@.take(0).len() == 0);
    while i < t.entries.len()
        invariant
            0 <= i <= t.entries@.len(),
            r.wf(),
            r@ == table::map_of(t.entries@.take(i as int)),
        decreases t.entries@.len() - i,
    {
        assert(t.entries@.take(i + 1).drop_last() =~= t.entries@.take(i as int));
        r.insert(t.entries[i].0.clone(), t.entries[i].1);
        i += 1;
    }
    assert(t.entries@.take(t.entries@.len() as int) =~= t.entries@);
    r
}

/// A copy of a map of table descriptions.
fn copy_metas(t: &Table<TableMeta>) -> (r: Table<TableMeta>)
    requires
        t.wf(),
    ensures
        r.wf(),
        r@ == t@,
{
    let mut r: Table<TableMeta> = Table::new();
    let mut i: usize = 0;
    assert(t.entries@.take(0).len() == 0);
    while i < t.entries.len()
        invariant
            0 <= i <= t.entries@.len(),
            r.wf(),
            r@ == table::map_of(t.entries@.take(i as int)),
        decreases t.entries@.len() - i,
    {
        assert(t.entries@.take(i + 1).drop_last() =~= t.entries@.take(i as int));
        r.insert(t.entries[i].0.clone(), t.entries[i].1.copy());
        i += 1;
    }
    assert(t.entries@.take(t.entries@.len() as int) =~= t.entries@);
    r
}

/// A map with the entries of another added for the keys that it lacks.
pub open spec fn completed<V>(old: Map<Seq<char>, V>, new: Map<Seq<char>, V>) -> Map<Seq<char>, V> {
    new.union_prefer_right(old)
}

/// What a poll of some databases finds, from the marks and from what is known of
/// tables.
pub open spec fn polled(
    w: World,
    dbs: Seq<Seq<char>>,
    marks: Map<Seq<char>, i64>,
    cache: Map<Seq<char>, MetaView>,
) -> Found {
    poll::from_dbs(
        w,
        dbs,
        0,
        Found { msgs: Seq::empty(), marks, metas: cache, names: Map::empty() },
    )
}

/// The marks kept after a poll: those it has set, where it has found anything.
pub open spec fn marks_kept(marks: Map<Seq<char>, i64>, found: Found) -> Map<Seq<char>, i64> {
    if found.msgs.len() > 0 {
        found.marks
    } else {
        marks
    }
}

/// Adds the entries of a map to another for the keys that it lacks.
fn complete(known: &mut Table<TableMeta>, new: &Table<TableMeta>)
    requires
        old(known).wf(),
        new.wf(),
    ensures
        final(known).wf(),
        final(known)@ == completed(old(known)@, new@),
{
    let ghost first = known@;
    let mut i: usize = 0;
    assert(completed(first, table::map_of(new.entries@.take(0))) =~= first);
    while i < new.entries.len()
        invariant
            0 <= i <= new.entries@.len(),
            known.wf(),
            known@ == completed(first, table::map_of(new.entries@.take(i as int))),
            new.wf(),
        decreases new.entries@.len() - i,
    {
        let ghost seen = new.entries@.take(i as int);
        let ghost next = new.entries@.take(i + 1);
        assert(next.drop_last() =~= seen);
        let key = &new.entries[i].0;
        proof {
            table::lemma_map_of(seen);
            assert forall|j: int| 0 <= j < seen.len() implies (#[trigger] seen[j]).0@
                != key@ by {
                assert(new.entries@[j].0@ != new.entries@[i as int].0@);
            }
        }
        if !known.contains(key.as_str()) {
            known.insert(key.clone(), new.entries[i].1.copy());
        }
        assert(known@ =~= completed(first, table::map_of(next)));
        i += 1;
    }
    assert(new.entries@.take(new.entries@.len() as int) =~= new.entries@);
}

/// The name to show for the own account: that of its contact, once there is
/// one.
pub open spec fn own_name(
    before: Seq<char>,
    me: Seq<char>,
    contacts: Map<Seq<char>, contacts::ContactView>,
) -> Seq<char> {
    if me.len() > 0 && contacts.dom().contains(me) {
        contacts[me].display_name
    } else {
        before
    }
}

impl DbManager {
    /// Whether no map holds a key twice.
    pub open spec fn wf(&self) -> bool {
        &&& self.contacts.wf()
        &&& self.watermarks.wf()
        &&& self.table_meta_cache.wf()
    }

    /// The state for a key and a storage directory, of which the pieces of the
    /// path are given.
    pub fn new(key_hex: String, dir_pieces: &Vec<String>) -> (r: Result<DbManager, DbError>)
        requires
            keys::hex_readable(key_hex@),
        ensures
            match (keys::hex_bytes(key_hex@), r) {
                (Ok(key), Ok(m)) => {
                    &&& key.len() == 32 || key.len() == 48
                    &&& m.wf()
                    &&& m.key_hex@ == key_hex@
                    &&& m.key_bytes@ == key
                    &&& m.self_wxid@ == keys::own_account(text::views(dir_pieces@))
                    &&& m.self_display_name@ == "我"@
                    &&& m.contacts@ == Map::<Seq<char>, contacts::ContactView>::empty()
                    &&& m.watermarks@ == Map::<Seq<char>, i64>::empty()
                    &&& m.table_meta_cache@ == Map::<Seq<char>, MetaView>::empty()
                },
                (Ok(key), Err(DbError::KeyLength(n))) => key.len() != 32 && key.len() != 48 && n
                    == key.len(),
                (Err(e), Err(DbError::KeyFormat(f))) => f@ == e,
                _ => false,
            },
    {
        let key_bytes = match keys::hex_to_bytes(key_hex.as_str()) {
            Ok(b) => b,
            Err(e) => {
                return Err(DbError::KeyFormat(e));
            },
        };
        if key_bytes.len() != 32 && key_bytes.len() != 48 {
            return Err(DbError::KeyLength(key_bytes.len()));
        }
        let self_wxid = keys::find_own_account(dir_pieces);
        Ok(
            DbManager {
                key_hex,
                key_bytes,
                self_wxid,
                self_display_name: "我".to_owned(),
                contacts: Table::new(),
                watermarks: Table::new(),
                table_meta_cache: Table::new(),
            },
        )
    }

    /// Replaces the contacts by those of some rows, adds the group chats of
    /// others, and brings the own name up to date. Gives how many rows of the
    /// first kind held a contact.
    pub fn refresh_contacts(&mut self, rows: &Vec<ContactRow>, rooms: &Vec<RoomRow>) -> (r: usize)
        requires
            old(self).wf(),
        ensures
            final(self).wf(),
            r == contacts::contacts_of(cell::views_of(rows@)).len(),
            final(self).contacts@ == contacts::with_rooms(
                contacts::by_account(contacts::contacts_of(cell::views_of(rows@))),
                cell::views_of(rooms@),
            ),
            final(self).self_display_name@ == own_name(
                old(self).self_display_name@,
                old(self).self_wxid@,
                final(self).contacts@,
            ),
            final(self).key_hex == old(self).key_hex,
            final(self).key_bytes == old(self).key_bytes,
            final(self).self_wxid == old(self).self_wxid,
            final(self).watermarks == old(self).watermarks,
            final(self).table_meta_cache == old(self).table_meta_cache,
    {
        let (loaded, count) = contacts::load_contacts(rows);
        self.contacts = loaded;
        contacts::add_rooms(&mut self.contacts, rooms);
        if !self.self_wxid.as_str().is_empty() {
            if let Some(c) = self.contacts.get(self.self_wxid.as_str()) {
                self.self_display_name = c.display_name.clone();
            }
        }
        count
    }

    /// All contacts, one for each account.
    pub fn get_contacts(&self) -> (r: Vec<ContactInfo>)
        requires
            self.wf(),
        ensures
            r@.len() == self.contacts.entries@.len(),
            forall|i: int|
                0 <= i < r@.len() ==> self.contacts@.dom().contains(
                    self.contacts.entries@[i].0@,
                ) && (#[trigger] r@[i])@ == self.contacts@[self.contacts.entries@[i].0@],
            forall|k: Seq<char>| #[trigger]
                self.contacts@.dom().contains(k) ==> exists|i: int|
                    0 <= i < r@.len() && (#[trigger] r@[i])@ == self.contacts@[k],
    {
        let r = contacts::list_contacts(&self.contacts);
        proof {
            let s = self.contacts.entries@;
            table::lemma_map_of(s);
            assert(r@.len() == cell::views_of(r@).len());
            assert forall|i: int| 0 <= i < r@.len() implies self.contacts@.dom().contains(s[i].0@)
                && (#[trigger] r@[i])@ == self.contacts@[s[i].0@] by {
                assert(cell::views_of(r@)[i] == s[i].1@);
            }
            assert forall|k: Seq<char>| #[trigger] self.contacts@.dom().contains(k) implies exists|
                i: int,
            |
                0 <= i < r@.len() && (#[trigger] r@[i])@ == self.contacts@[k] by {
                let i = choose|i: int| 0 <= i < s.len() && (#[trigger] s[i]).0@ == k;
                assert(r@[i]@ == self.contacts@[s[i].0@]);
            }
        }
        r
    }

    /// The name to show for an account.
    pub fn resolve_name(&self, username: &str) -> (r: String)
        requires
            self.wf(),
        ensures
            r@ == contacts::name_of(self.contacts@, username@),
    {
        contacts::resolve_name(&self.contacts, username)
    }

    /// The sessions of some rows, in order.
    pub fn get_sessions(&self, rows: &Vec<SessionRow>) -> (r: Vec<DbSessionInfo>)
        requires
            self.wf(),
        ensures
            cell::views_of(r@) == contacts::sessions_of(cell::views_of(rows@), self.contacts@),
    {
        contacts::read_sessions(rows, &self.contacts)
    }

    /// Starts a poll of some databases for what is new since the last one.
    pub fn start_poll(&self, dbs: Vec<String>) -> (r: Poll)
        requires
            self.wf(),
        ensures
            r.waits(),
            forall|w: World| #[trigger]
                r.outcome(w) == polled(
                    w,
                    text::views(dbs@),
                    self.watermarks@,
                    self.table_meta_cache@,
                ),
    {
        Poll::start(dbs, copy_marks(&self.watermarks), copy_metas(&self.table_meta_cache))
    }

    /// Takes over what a poll has found. Gives the new messages, and the
    /// contents of those that the own account sent.
    pub fn get_new_messages(&mut self, poll: Poll) -> (r: (Vec<DbMessage>, Vec<String>))
        requires
            old(self).wf(),
            poll.fits(),
            poll.over(),
        ensures
            final(self).wf(),
            cell::views_of(r.0@) == messages::messages_of(
                poll.found().msgs,
                old(self).self_wxid@,
                old(self).self_display_name@,
                old(self).contacts@,
            ),
            text::views(r.1@) == messages::own_contents(cell::views_of(r.0@)),
            final(self).watermarks@ == marks_kept(old(self).watermarks@, poll.found()),
            final(self).table_meta_cache@ == completed(
                old(self).table_meta_cache@,
                poll.found().metas,
            ),
            forall|w: World| #[trigger] poll.outcome(w) == poll.found(),
            final(self).key_hex == old(self).key_hex,
            final(self).key_bytes == old(self).key_bytes,
            final(self).self_wxid == old(self).self_wxid,
            final(self).self_display_name == old(self).self_display_name,
            final(self).contacts == old(self).contacts,
    {
        complete(&mut self.table_meta_cache, &poll.metas);
        let r = messages::read_messages(
            &poll.msgs,
            self.self_wxid.as_str(),
            self.self_display_name.as_str(),
            &self.contacts,
        );
        if poll.msgs.len() > 0 {
            self.watermarks = poll.marks;
        }
        r
    }

    /// Takes over the marks of everything that was marked as read.
    pub fn mark_all_read(&mut self, marking: Marking)
        requires
            old(self).wf(),
            marking.waits(),
            marking.over(),
        ensures
            final(self).wf(),
            final(self).watermarks@ == marking.marks@,
            forall|w: World| #[trigger] marking.outcome(w) == marking.marks@,
            final(self).key_hex == old(self).key_hex,
            final(self).key_bytes == old(self).key_bytes,
            final(self).self_wxid == old(self).self_wxid,
            final(self).self_display_name == old(self).self_display_name,
            final(self).contacts == old(self).contacts,
            final(self).table_meta_cache == old(self).table_meta_cache,
    {
        self.watermarks = marking.marks;
    }
}

// ---------------------------------------------------------------------
// Confirming what was sent
// ---------------------------------------------------------------------

/// What happens while a sent text waits to be seen.
#[derive(Debug, Clone)]
pub enum SentEvent {
    /// An own message came by.
    Content(String),
    /// Some own messages were missed.
    Lagged,
    /// No more messages will come.
    Closed,
    /// The time is up.
    Timeout,
}

/// How long a sent text is waited for, in milliseconds.
pub const VERIFY_SENT_MS: u64 = 5000;

/// Whether an own message shows that a text was sent: one holds the other.
pub open spec fn shows_sent(sent: Seq<char>, content: Seq<char>) -> bool {
    let c = text::trim(content);
    c.len() > 0 && (text::occurs(c, sent) || text::occurs(sent, c))
}

/// Whether a text was sent, as far as an event tells.
pub open spec fn told_by(sent: Seq<char>, event: SentEvent) -> Option<bool> {
    match event {
        SentEvent::Content(c) => if shows_sent(sent, c@) {
            Some(true)
        } else {
            None
        },
        SentEvent::Lagged => None,
        SentEvent::Closed => Some(false),
        SentEvent::Timeout => Some(false),
    }
}

impl DbManager {
    /// Whether a text was sent, as far as an event tells; nothing while it is
    /// still open.
    pub fn verify_sent(&self, sent: &str, event: &SentEvent) -> (r: Option<bool>)
        ensures
            r == told_by(sent@, *event),
    {
        match event {
            SentEvent::Content(c) => {
                let c = text::trimmed(c.as_str());
                if !c.as_str().is_empty() && (text::contains(c.as_str(), sent) || text::contains(
                    sent,
                    c.as_str(),
                )) {
                    Some(true)
                } else {
                    None
                }
            },
            SentEvent::Lagged => None,
            SentEvent::Closed => Some(false),
            SentEvent::Timeout => Some(false),
        }
    }
}

/// An own message whose content is the text that was sent, white space around
/// it or not, shows that it was sent.
pub proof fn law_exact_content_shows(sent: Seq<char>, content: Seq<char>)
    requires
        text::trim(content) == text::trim(sent),
        text::trim(sent).len() > 0,
    ensures
        shows_sent(sent, content),
{
    text::lemma_trim_occurs(sent);
}

/// What is known of a table stays known, and what is new is added.
pub proof fn law_known_tables_stay<V>(old: Map<Seq<char>, V>, new: Map<Seq<char>, V>, k: Seq<char>)
    ensures
        old.dom().contains(k) ==> completed(old, new).dom().contains(k) && completed(old, new)[k]
            == old[k],
        !old.dom().contains(k) && new.dom().contains(k) ==> completed(old, new).dom().contains(k)
            && completed(old, new)[k] == new[k],
        !old.dom().contains(k) && !new.dom().contains(k) ==> !completed(old, new).dom().contains(k),
{
}

/// The marks move exactly where messages were found.
pub proof fn law_marks_move_with_messages(marks: Map<Seq<char>, i64>, found: Found)
    ensures
        found.msgs.len() > 0 ==> marks_kept(marks, found) == found.marks,
        found.msgs == Seq::<messages::RawView>::empty() ==> marks_kept(marks, found) == marks,
{
}

/// The own name is the one the contacts give for the own account, and stays as
/// it was where they do not know it.
pub proof fn law_own_name_comes_from_contacts(
    before: Seq<char>,
    me: Seq<char>,
    known: Map<Seq<char>, contacts::ContactView>,
    c: contacts::ContactView,
)
    ensures
        me.len() > 0 ==> own_name(before, me, known.insert(me, c)) == c.display_name,
        own_name(before, me, known.remove(me)) == before,
        own_name(before, Seq::empty(), known) == before,
{
}

/// A text counts as seen wherever it stands in a message, or a message in it,
/// whatever white space is around the message; a blank message shows nothing,
/// and neither does one that has nothing to do with the text.
pub proof fn law_sent_text_is_seen(
    before: Seq<char>,
    c: Seq<char>,
    after: Seq<char>,
    head: Seq<char>,
    tail: Seq<char>,
    blank: Seq<char>,
    sent: Seq<char>,
)
    requires
        text::all_space(before),
        text::all_space(after),
        text::all_space(blank),
        c.len() > 0,
        !text::is_space(c[0]),
        !text::is_space(c.last()),
    ensures
        shows_sent(head + c + tail, before + c + after),
        c == head + sent + tail ==> shows_sent(sent, before + c + after),
        !shows_sent(sent, blank),
        !text::occurs(c, sent) && !text::occurs(sent, c) ==> !shows_sent(
            sent,
            before + c + after,
        ),
{
    text::law_trimmed_between(before, c, after);
    text::law_occurs_is_in_between(head, c, tail);
    text::law_occurs_is_in_between(head, sent, tail);
    let cut = text::law_trim_takes_white_space(blank);
}

/// That a text was sent is told only by a message that shows it, that it was not
/// only by the end of all messages or of the wait; any other message and a gap
/// leave it open.
pub proof fn law_only_messages_tell_of_sending(sent: Seq<char>, event: SentEvent)
    ensures
        told_by(sent, event) == Some(true) <==> (event matches SentEvent::Content(c) && shows_sent(
            sent,
            c@,
        )),
        told_by(sent, event) == Some(false) <==> event is Closed || event is Timeout,
        event is Lagged ==> told_by(sent, event) is None,
{
}

} // verus!
