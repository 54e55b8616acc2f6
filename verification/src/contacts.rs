//! Contacts and sessions as the databases list them.
use vstd::prelude::*;
use crate::cell;
use crate::cell::{Cell, CellView};
use crate::table::Table;

verus! {

// ---------------------------------------------------------------------
// Contacts
// ---------------------------------------------------------------------

/// A contact.
#[derive(Debug, Clone)]
pub struct ContactInfo {
    pub username: String,
    pub nick_name: String,
    pub remark: String,
    pub alias: String,
    /// The name to show: the remark, else the nickname, else the account.
    pub display_name: String,
}

/// A contact as a mathematical value.
pub struct ContactView {
    pub username: Seq<char>,
    pub nick_name: Seq<char>,
    pub remark: Seq<char>,
    pub alias: Seq<char>,
    pub display_name: Seq<char>,
}

impl View for ContactInfo {
    type V = ContactView;

    open spec fn view(&self) -> ContactView {
        ContactView {
            username: self.username@,
            nick_name: self.nick_name@,
            remark: self.remark@,
            alias: self.alias@,
            display_name: self.display_name@,
        }
    }
}

/// A row of the contact list.
#[derive(Debug, Clone)]
pub struct ContactRow {
    pub username: Cell,
    pub nick_name: Cell,
    pub remark: Cell,
    pub alias: Cell,
}

/// A row of the contact list as a mathematical value.
pub struct ContactRowView {
    pub username: CellView,
    pub nick_name: CellView,
    pub remark: CellView,
    pub alias: CellView,
}

impl View for ContactRow {
    type V = ContactRowView;

    open spec fn view(&self) -> ContactRowView {
        ContactRowView {
            username: self.username@,
            nick_name: self.nick_name@,
            remark: self.remark@,
            alias: self.alias@,
        }
    }
}

/// A row of the list of group chats.
#[derive(Debug, Clone)]
pub struct RoomRow {
    pub username: Cell,
    pub nick_name: Cell,
}

/// A row of the list of group chats as a mathematical value.
pub struct RoomRowView {
    pub username: CellView,
    pub nick_name: CellView,
}

impl View for RoomRow {
    type V = RoomRowView;

    open spec fn view(&self) -> RoomRowView {
        RoomRowView { username: self.username@, nick_name: self.nick_name@ }
    }
}

/// The name to show for a contact.
pub open spec fn shown_name(
    remark: Seq<char>,
    nick_name: Seq<char>,
    username: Seq<char>,
) -> Seq<char> {
    if remark.len() > 0 {
        remark
    } else if nick_name.len() > 0 {
        nick_name
    } else {
        username
    }
}

/// The contact of a row; none without an account.
pub open spec fn contact_of(row: ContactRowView) -> Option<ContactView> {
    let username = cell::unpacked_text(row.username);
    let nick_name = cell::unpacked_text(row.nick_name);
    let remark = cell::unpacked_text(row.remark);
    if username.len() == 0 {
        None
    } else {
        Some(
            ContactView {
                username,
                nick_name,
                remark,
                alias: cell::unpacked_text(row.alias),
                display_name: shown_name(remark, nick_name, username),
            },
        )
    }
}

/// The contacts of some rows, in order.
pub open spec fn contacts_of(rows: Seq<ContactRowView>) -> Seq<ContactView>
    decreases rows.len(),
{
    if rows.len() == 0 {
        Seq::empty()
    } else {
        match contact_of(rows.last()) {
            Some(c) => contacts_of(rows.drop_last()).push(c),
            None => contacts_of(rows.drop_last()),
        }
    }
}

/// Contacts by account: the last of several with one account stays.
pub open spec fn by_account(contacts: Seq<ContactView>) -> Map<Seq<char>, ContactView>
    decreases contacts.len(),
{
    if contacts.len() == 0 {
        Map::empty()
    } else {
        by_account(contacts.drop_last()).insert(contacts.last().username, contacts.last())
    }
}

/// The contact that stands for a group chat.
pub open spec fn room_contact(id: Seq<char>, name: Seq<char>) -> ContactView {
    ContactView {
        username: id,
        nick_name: name,
        remark: Seq::empty(),
        alias: Seq::empty(),
        display_name: name,
    }
}

/// Contacts with the group chats of some rows added: those with an id and a
/// name whose id is not there yet.
pub open spec fn with_rooms(
    contacts: Map<Seq<char>, ContactView>,
    rows: Seq<RoomRowView>,
) -> Map<Seq<char>, ContactView>
    decreases rows.len(),
{
    if rows.len() == 0 {
        contacts
    } else {
        let before = with_rooms(contacts, rows.drop_last());
        let id = cell::unpacked_text(rows.last().username);
        let name = cell::unpacked_text(rows.last().nick_name);
        if id.len() > 0 && name.len() > 0 && !before.dom().contains(id) {
            before.insert(id, room_contact(id, name))
        } else {
            before
        }
    }
}

/// The name to show for an account: its contact's, else the account itself.
pub open spec fn name_of(
    contacts: Map<Seq<char>, ContactView>,
    username: Seq<char>,
) -> Seq<char> {
    if contacts.dom().contains(username) {
        contacts[username].display_name
    } else {
        username
    }
}

impl ContactInfo {
    /// A copy of this contact.
    pub fn copy(&self) -> (r: ContactInfo)
        ensures
            r@ == self@,
    {
        ContactInfo {
            username: self.username.clone(),
            nick_name: self.nick_name.clone(),
            remark: self.remark.clone(),
            alias: self.alias.clone(),
            display_name: self.display_name.clone(),
        }
    }

    /// The contact of a row; none without an account.
    pub fn from_row(row: &ContactRow) -> (r: Option<ContactInfo>)
        ensures
            match r {
                Some(c) => contact_of(row@) == Some(c@),
                None => contact_of(row@) is None,
            },
    {
        let username = cell::wcdb_get_text(&row.username);
        if username.as_str().is_empty() {
            return None;
        }
        let nick_name = cell::wcdb_get_text(&row.nick_name);
        let remark = cell::wcdb_get_text(&row.remark);
        let alias = cell::wcdb_get_text(&row.alias);
        let display_name = if !remark.as_str().is_empty() {
            remark.clone()
        } else if !nick_name.as_str().is_empty() {
            nick_name.clone()
        } else {
            username.clone()
        };
        Some(ContactInfo { username, nick_name, remark, alias, display_name })
    }
}

/// The query for the rows of the contact list.
pub fn contacts_sql() -> (r: &'static str)
    ensures
        r@ == "SELECT username, nick_name, remark, alias FROM contact"@,
{
    "SELECT username, nick_name, remark, alias FROM contact"
}

/// The query for the rows of the list of group chats.
pub fn rooms_sql() -> (r: &'static str)
    ensures
        r@
            == "SELECT cr.username, c.nick_name FROM chat_room cr LEFT JOIN contact c ON cr.username = c.username WHERE cr.username IS NOT NULL"@,
{
    "SELECT cr.username, c.nick_name FROM chat_room cr LEFT JOIN contact c ON cr.username = c.username WHERE cr.username IS NOT NULL"
}

/// Contacts by account from some rows, and how many rows gave one.
pub fn load_contacts(rows: &Vec<ContactRow>) -> (r: (Table<ContactInfo>, usize))
    ensures
        r.0.wf(),
        r.0@ == by_account(contacts_of(cell::views_of(rows@))),
        r.1 == contacts_of(cell::views_of(rows@)).len(),
{
    let mut contacts: Table<ContactInfo> = Table::new();
    let mut count: usize = 0;
    let mut i: usize = 0;
    let ghost all = cell::views_of(rows@);
    while i < rows.len()
        invariant
            0 <= i <= rows@.len(),
            count <= i,
            all == cell::views_of(rows@),
            contacts.wf(),
            contacts@ == by_account(contacts_of(all.take(i as int))),
            count == contacts_of(all.take(i as int)).len(),
        decreases rows@.len() - i,
    {
        assert(all.take(i + 1).drop_last() =~= all.take(i as int));
        assert(all.take(i + 1).last() == rows@[i as int]@);
        if let Some(c) = ContactInfo::from_row(&rows[i]) {
            let ghost before = contacts_of(all.take(i as int));
            assert(before.push(c@).drop_last() =~= before);
            contacts.insert(c.username.clone(), c);
            count += 1;
        }
        i += 1;
    }
    assert(all.take(all.len() as int) =~= all);
    (contacts, count)
}

/// Adds the group chats of some rows to the contacts.
pub fn add_rooms(contacts: &mut Table<ContactInfo>, rows: &Vec<RoomRow>)
    requires
        old(contacts).wf(),
    ensures
        final(contacts).wf(),
        final(contacts)@ == with_rooms(old(contacts)@, cell::views_of(rows@)),
{
    let ghost start = contacts@;
    let ghost all = cell::views_of(rows@);
    let mut i: usize = 0;
    while i < rows.len()
        invariant
            0 <= i <= rows@.len(),
            all == cell::views_of(rows@),
            contacts.wf(),
            contacts@ == with_rooms(start, all.take(i as int)),
        decreases rows@.len() - i,
    {
        assert(all.take(i + 1).drop_last() =~= all.take(i as int));
        assert(all.take(i + 1).last() == rows@[i as int]@);
        let id = cell::wcdb_get_text(&rows[i].username);
        let name = cell::wcdb_get_text(&rows[i].nick_name);
        if !id.as_str().is_empty() && !name.as_str().is_empty() && !contacts.contains(id.as_str()) {
            let room = ContactInfo {
                username: id.clone(),
                nick_name: name.clone(),
                remark: String::new(),
                alias: String::new(),
                display_name: name,
            };
            assert(room@ == room_contact(id@, name@));
            contacts.insert(id, room);
        }
        i += 1;
    }
    assert(all.take(all.len() as int) =~= all);
}

/// The name to show for an account.
pub fn resolve_name(contacts: &Table<ContactInfo>, username: &str) -> (r: String)
    requires
        contacts.wf(),
    ensures
        r@ == name_of(contacts@, username@),
{
    match contacts.get(username) {
        Some(c) => c.display_name.clone(),
        None => username.to_owned(),
    }
}

/// All contacts, one for each account.
pub fn list_contacts(contacts: &Table<ContactInfo>) -> (r: Vec<ContactInfo>)
    ensures
        cell::views_of(r@) == Seq::new(
            contacts.entries@.len(),
            |i: int| contacts.entries@[i].1@,
        ),
{
    let mut r: Vec<ContactInfo> = Vec::new();
    let mut i: usize = 0;
    while i < contacts.entries.len()
        invariant
            0 <= i <= contacts.entries@.len(),
            r@.len() == i,
            forall|j: int| 0 <= j < i ==> (#[trigger] r@[j])@ == contacts.entries@[j].1@,
        decreases contacts.entries@.len() - i,
    {
        r.push(contacts.entries[i].1.copy());
        i += 1;
    }
    r
}

/// Loading contacts keeps every account that a row names, and every contact
/// stands under its own account.
pub proof fn law_contacts_by_account(contacts: Seq<ContactView>, i: int)
    requires
        0 <= i < contacts.len(),
    ensures
        by_account(contacts).dom().contains(contacts[i].username),
        by_account(contacts)[contacts[i].username].username == contacts[i].username,
        (forall|j: int|
            i < j < contacts.len() ==> (#[trigger] contacts[j]).username != contacts[i].username)
            ==> by_account(contacts)[contacts[i].username] == contacts[i],
    decreases contacts.len(),
{
    if i < contacts.len() - 1 {
        let t = contacts.drop_last();
        law_contacts_by_account(t, i);
        assert(t[i] == contacts[i]);
        if forall|j: int|
            i < j < contacts.len() ==> (#[trigger] contacts[j]).username != contacts[i].username {
            assert forall|j: int| i < j < t.len() implies (#[trigger] t[j]).username
                != t[i].username by {
                assert(contacts[j] == t[j]);
            }
            assert(contacts[contacts.len() - 1].username != contacts[i].username);
        }
    }
}

/// Adding group chats never changes a contact that is already there.
pub proof fn law_rooms_only_add(contacts: Map<Seq<char>, ContactView>, rows: Seq<RoomRowView>)
    ensures
        forall|k: Seq<char>| #[trigger]
            contacts.dom().contains(k) ==> with_rooms(contacts, rows).dom().contains(k)
                && with_rooms(contacts, rows)[k] == contacts[k],
    decreases rows.len(),
{
    if rows.len() > 0 {
        law_rooms_only_add(contacts, rows.drop_last());
    }
}

// ---------------------------------------------------------------------
// Sessions
// ---------------------------------------------------------------------

/// A session as the database lists it.
#[derive(Debug, Clone)]
pub struct DbSessionInfo {
    pub username: String,
    pub display_name: String,
    pub unread_count: i32,
    pub summary: String,
    pub last_timestamp: i64,
    pub last_msg_sender: String,
}

/// A session as a mathematical value.
pub struct SessionView {
    pub username: Seq<char>,
    pub display_name: Seq<char>,
    pub unread_count: i32,
    pub summary: Seq<char>,
    pub last_timestamp: i64,
    pub last_msg_sender: Seq<char>,
}

impl View for DbSessionInfo {
    type V = SessionView;

    open spec fn view(&self) -> SessionView {
        SessionView {
            username: self.username@,
            display_name: self.display_name@,
            unread_count: self.unread_count,
            summary: self.summary@,
            last_timestamp: self.last_timestamp,
            last_msg_sender: self.last_msg_sender@,
        }
    }
}

/// A row of the session list.
#[derive(Debug, Clone)]
pub struct SessionRow {
    pub username: Cell,
    pub unread_count: Cell,
    pub summary: Cell,
    pub last_timestamp: Cell,
    pub last_msg_sender: Cell,
}

/// A row of the session list as a mathematical value.
pub struct SessionRowView {
    pub username: CellView,
    pub unread_count: CellView,
    pub summary: CellView,
    pub last_timestamp: CellView,
    pub last_msg_sender: CellView,
}

impl View for SessionRow {
    type V = SessionRowView;

    open spec fn view(&self) -> SessionRowView {
        SessionRowView {
            username: self.username@,
            unread_count: self.unread_count@,
            summary: self.summary@,
            last_timestamp: self.last_timestamp@,
            last_msg_sender: self.last_msg_sender@,
        }
    }
}

/// The session of a row; none where a column holds a value of another kind.
pub open spec fn session_of(
    row: SessionRowView,
    contacts: Map<Seq<char>, ContactView>,
) -> Option<SessionView> {
    match (
        cell::text_of(row.username),
        cell::small_int_or_zero(row.unread_count),
        cell::text_or_empty(row.summary),
        cell::int_or_zero(row.last_timestamp),
        cell::text_or_empty(row.last_msg_sender),
    ) {
        (Some(username), Some(unread_count), Some(summary), Some(last_timestamp), Some(sender)) => {
            Some(
                SessionView {
                    username,
                    display_name: name_of(contacts, username),
                    unread_count,
                    summary,
                    last_timestamp,
                    last_msg_sender: sender,
                },
            )
        },
        _ => None,
    }
}

/// The sessions of some rows, in order.
pub open spec fn sessions_of(
    rows: Seq<SessionRowView>,
    contacts: Map<Seq<char>, ContactView>,
) -> Seq<SessionView>
    decreases rows.len(),
{
    if rows.len() == 0 {
        Seq::empty()
    } else {
        match session_of(rows.last(), contacts) {
            Some(s) => sessions_of(rows.drop_last(), contacts).push(s),
            None => sessions_of(rows.drop_last(), contacts),
        }
    }
}

/// The query for the rows of the session list, the latest session first.
pub fn sessions_sql() -> (r: &'static str)
    ensures
        r@
            == "SELECT username, unread_count, summary, last_timestamp, last_msg_sender FROM SessionTable ORDER BY sort_timestamp DESC"@,
{
    "SELECT username, unread_count, summary, last_timestamp, last_msg_sender FROM SessionTable ORDER BY sort_timestamp DESC"
}

/// The session of a row.
pub fn read_session(row: &SessionRow, contacts: &Table<ContactInfo>) -> (r: Option<DbSessionInfo>)
    requires
        contacts.wf(),
    ensures
        match r {
            Some(s) => session_of(row@, contacts@) == Some(s@),
            None => session_of(row@, contacts@) is None,
        },
{
    let username = match row.username.get_text() {
        Some(s) => s,
        None => {
            return None;
        },
    };
    let unread_count: i32 = match row.unread_count.get_small_int_or_zero() {
        Some(n) => n,
        None => {
            return None;
        },
    };
    let summary = match row.summary.get_text_or_empty() {
        Some(s) => s,
        None => {
            return None;
        },
    };
    let last_timestamp: i64 = match row.last_timestamp.get_int_or_zero() {
        Some(n) => n,
        None => {
            return None;
        },
    };
    let last_msg_sender = match row.last_msg_sender.get_text_or_empty() {
        Some(s) => s,
        None => {
            return None;
        },
    };
    let display_name = resolve_name(contacts, username.as_str());
    Some(
        DbSessionInfo {
            username,
            display_name,
            unread_count,
            summary,
            last_timestamp,
            last_msg_sender,
        },
    )
}

/// The sessions of some rows, in order.
pub fn read_sessions(rows: &Vec<SessionRow>, contacts: &Table<ContactInfo>) -> (r: Vec<
    DbSessionInfo,
>)
    requires
        contacts.wf(),
    ensures
        cell::views_of(r@) == sessions_of(cell::views_of(rows@), contacts@),
{
    let mut r: Vec<DbSessionInfo> = Vec::new();
    let mut i: usize = 0;
    let ghost all = cell::views_of(rows@);
    assert(cell::views_of(r@) =~= sessions_of(all.take(0), contacts@));
    while i < rows.len()
        invariant
            0 <= i <= rows@.len(),
            all == cell::views_of(rows@),
            contacts.wf(),
            cell::views_of(r@) == sessions_of(all.take(i as int), contacts@),
        decreases rows@.len() - i,
    {
        assert(all.take(i + 1).drop_last() =~= all.take(i as int));
        assert(all.take(i + 1).last() == rows@[i as int]@);
        let ghost before = r@;
        if let Some(s) = read_session(&rows[i], contacts) {
            r.push(s);
            assert(cell::views_of(r@) =~= cell::views_of(before).push(s@));
        }
        i += 1;
    }
    assert(all.take(all.len() as int) =~= all);
    r
}

// ---------------------------------------------------------------------
// Laws on rows
// ---------------------------------------------------------------------

/// A row with an account gives a contact with the texts of the row's own
/// columns; one without gives none.
pub proof fn law_contact_has_its_columns(
    row: ContactRowView,
    account: Seq<char>,
    nick: Seq<char>,
    remark: Seq<char>,
    alias: Seq<char>,
)
    requires
        row.username == CellView::Text(account),
        row.nick_name == CellView::Text(nick),
        row.remark == CellView::Text(remark),
        row.alias == CellView::Text(alias),
    ensures
        contact_of(row) is Some <==> account.len() > 0,
        contact_of(row) matches Some(c) ==> {
            &&& c.username == account
            &&& c.nick_name == nick
            &&& c.remark == remark
            &&& c.alias == alias
            &&& remark.len() > 0 ==> c.display_name == remark
            &&& remark.len() == 0 && nick.len() > 0 ==> c.display_name == nick
            &&& remark.len() == 0 && nick.len() == 0 ==> c.display_name == account
        },
{
}

/// Missing texts of a contact are empty, and then do not count for its name.
pub proof fn law_contact_without_names(row: ContactRowView, account: Seq<char>)
    requires
        account.len() > 0,
        row.username == CellView::Text(account),
        row.nick_name is Null,
        row.remark is Null,
        row.alias is Null,
    ensures
        contact_of(row) matches Some(c) && c.username == account && c.display_name == account
            && c.nick_name.len() == 0 && c.remark.len() == 0 && c.alias.len() == 0,
{
}

/// A contact always has a name to show, and it is one of its own.
pub proof fn law_contact_has_a_name(row: ContactRowView)
    ensures
        contact_of(row) matches Some(c) ==> c.display_name.len() > 0 && (c.display_name == c.remark
            || c.display_name == c.nick_name || c.display_name == c.username),
{
}

/// Rows one behind the other give their contacts one behind the other, each by
/// itself.
pub proof fn law_contacts_one_by_one(a: Seq<ContactRowView>, b: Seq<ContactRowView>, row: ContactRowView)
    ensures
        contacts_of(a + b) == contacts_of(a) + contacts_of(b),
        match contact_of(row) {
            Some(c) => contacts_of(seq![row]) == seq![c],
            None => contacts_of(seq![row]) == Seq::<ContactView>::empty(),
        },
    decreases b.len(),
{
    if b.len() == 0 {
        assert(a + b =~= a);
        assert(contacts_of(a) + contacts_of(b) =~= contacts_of(a));
    } else {
        law_contacts_one_by_one(a, b.drop_last(), row);
        assert((a + b).drop_last() =~= a + b.drop_last());
        assert(contacts_of(a + b) =~= contacts_of(a) + contacts_of(b));
    }
    assert(seq![row].drop_last() =~= Seq::empty());
    assert(contacts_of(seq![row].drop_last()) =~= Seq::empty());
    if let Some(c) = contact_of(row) {
        assert(contacts_of(seq![row]) =~= seq![c]);
    }
}

/// Loading contacts makes up no account: whoever is there is in a row.
pub proof fn law_no_contact_is_made_up(contacts: Seq<ContactView>, account: Seq<char>)
    ensures
        by_account(contacts).dom().contains(account) ==> exists|i: int|
            0 <= i < contacts.len() && by_account(contacts)[account] == #[trigger] contacts[i]
                && contacts[i].username == account,
    decreases contacts.len(),
{
    if contacts.len() > 0 && by_account(contacts).dom().contains(account) {
        if contacts.last().username == account {
            assert(contacts[contacts.len() - 1].username == account);
        } else {
            let t = contacts.drop_last();
            law_no_contact_is_made_up(t, account);
            let i = choose|i: int|
                0 <= i < t.len() && by_account(t)[account] == #[trigger] t[i] && t[i].username
                    == account;
            assert(contacts[i] == t[i]);
        }
    }
}

/// Whether a row names a group chat by id and name.
pub open spec fn names_room(row: RoomRowView, id: Seq<char>, name: Seq<char>) -> bool {
    row.username == CellView::Text(id) && row.nick_name == CellView::Text(name) && id.len() > 0
        && name.len() > 0
}

/// A group chat that has an id and a name, and no contact yet, gets one that
/// shows its name, the first where several rows name it; nobody else is added.
pub proof fn law_rooms_are_added(
    contacts: Map<Seq<char>, ContactView>,
    rows: Seq<RoomRowView>,
    k: int,
    id: Seq<char>,
    name: Seq<char>,
)
    requires
        0 <= k < rows.len(),
        names_room(rows[k], id, name),
        !contacts.dom().contains(id),
        forall|i: int| 0 <= i < k ==> cell::unpacked_text((#[trigger] rows[i]).username) != id,
    ensures
        with_rooms(contacts, rows).dom().contains(id),
        ({
            let c = with_rooms(contacts, rows)[id];
            c.username == id && c.display_name == name && c.nick_name == name && c.remark.len() == 0
                && c.alias.len() == 0
        }),
    decreases rows.len(),
{
    let front = rows.drop_last();
    if k < front.len() {
        assert(front[k] == rows[k]);
        assert forall|i: int| 0 <= i < k implies cell::unpacked_text((#[trigger] front[i]).username)
            != id by {
            assert(front[i] == rows[i]);
        }
        law_rooms_are_added(contacts, front, k, id, name);
    } else {
        assert forall|i: int| 0 <= i < front.len() implies cell::unpacked_text(
            (#[trigger] front[i]).username,
        ) != id by {
            assert(front[i] == rows[i]);
        }
        lemma_room_unnamed(contacts, front, id);
        assert(rows.last() == rows[k]);
    }
}

proof fn lemma_room_unnamed(
    contacts: Map<Seq<char>, ContactView>,
    rows: Seq<RoomRowView>,
    id: Seq<char>,
)
    requires
        !contacts.dom().contains(id),
        forall|i: int|
            0 <= i < rows.len() ==> cell::unpacked_text((#[trigger] rows[i]).username) != id,
    ensures
        !with_rooms(contacts, rows).dom().contains(id),
    decreases rows.len(),
{
    if rows.len() > 0 {
        let front = rows.drop_last();
        assert forall|i: int| 0 <= i < front.len() implies cell::unpacked_text(
            (#[trigger] front[i]).username,
        ) != id by {
            assert(front[i] == rows[i]);
        }
        assert(cell::unpacked_text(rows[rows.len() - 1].username) != id);
        lemma_room_unnamed(contacts, front, id);
    }
}

/// Nobody is added who is in no row of the group chats.
pub proof fn law_only_rooms_are_added(
    contacts: Map<Seq<char>, ContactView>,
    rows: Seq<RoomRowView>,
    id: Seq<char>,
)
    requires
        with_rooms(contacts, rows).dom().contains(id),
        !contacts.dom().contains(id),
    ensures
        id.len() > 0,
        exists|i: int|
            0 <= i < rows.len() && cell::unpacked_text((#[trigger] rows[i]).username) == id
                && cell::unpacked_text(rows[i].nick_name).len() > 0,
    decreases rows.len(),
{
    let front = rows.drop_last();
    if with_rooms(contacts, front).dom().contains(id) {
        law_only_rooms_are_added(contacts, front, id);
        let i = choose|i: int|
            0 <= i < front.len() && cell::unpacked_text((#[trigger] front[i]).username) == id
                && cell::unpacked_text(front[i].nick_name).len() > 0;
        assert(rows[i] == front[i]);
    } else {
        assert(rows[rows.len() - 1] == rows.last());
    }
}

/// A known account is shown by its contact's name, any other by itself; no other
/// contact matters.
pub proof fn law_names_are_shown(
    contacts: Map<Seq<char>, ContactView>,
    account: Seq<char>,
    c: ContactView,
    other: Seq<char>,
)
    ensures
        name_of(contacts.insert(account, c), account) == c.display_name,
        name_of(contacts.remove(account), account) == account,
        other != account ==> name_of(contacts.insert(account, c), other) == name_of(
            contacts,
            other,
        ),
{
}

/// Whether a column holds a 32-bit number, or nothing, which counts as zero.
pub open spec fn counts(c: CellView, n: i32) -> bool {
    c == CellView::Integer(n as i64) || c is Null && n == 0
}

/// Whether a column holds a number, or nothing, which counts as zero.
pub open spec fn numbers(c: CellView, n: i64) -> bool {
    c == CellView::Integer(n) || c is Null && n == 0
}

/// Whether a column holds a text, or nothing, which counts as empty.
pub open spec fn says(c: CellView, s: Seq<char>) -> bool {
    c == CellView::Text(s) || c is Null && s.len() == 0
}

/// A session has in each field the value of that field's own column, and the
/// name of its account to show.
pub proof fn law_session_has_its_columns(
    row: SessionRowView,
    contacts: Map<Seq<char>, ContactView>,
    account: Seq<char>,
    unread: i32,
    summary: Seq<char>,
    time: i64,
    sender: Seq<char>,
)
    requires
        row.username == CellView::Text(account),
        counts(row.unread_count, unread),
        says(row.summary, summary),
        numbers(row.last_timestamp, time),
        says(row.last_msg_sender, sender),
    ensures
        session_of(row, contacts) matches Some(s) && {
            &&& s.username == account
            &&& s.unread_count == unread
            &&& s.summary == summary
            &&& s.last_timestamp == time
            &&& s.last_msg_sender == sender
            &&& contacts.dom().contains(account) ==> s.display_name
                == contacts[account].display_name
            &&& !contacts.dom().contains(account) ==> s.display_name == account
        },
{
    if row.summary is Null {
        assert(summary =~= Seq::empty());
    }
    if row.last_msg_sender is Null {
        assert(sender =~= Seq::empty());
    }
}

/// A row gives a session only where each column holds a value of its kind: the
/// account a text, the counts numbers that fit, or nothing.
pub proof fn law_only_sound_rows_give_sessions(
    row: SessionRowView,
    contacts: Map<Seq<char>, ContactView>,
)
    ensures
        session_of(row, contacts) matches Some(s) ==> {
            &&& row.username == CellView::Text(s.username)
            &&& counts(row.unread_count, s.unread_count)
            &&& says(row.summary, s.summary)
            &&& numbers(row.last_timestamp, s.last_timestamp)
            &&& says(row.last_msg_sender, s.last_msg_sender)
        },
{
}

/// Rows one behind the other give their sessions one behind the other, each by
/// itself.
pub proof fn law_sessions_one_by_one(
    a: Seq<SessionRowView>,
    b: Seq<SessionRowView>,
    row: SessionRowView,
    contacts: Map<Seq<char>, ContactView>,
)
    ensures
        sessions_of(a + b, contacts) == sessions_of(a, contacts) + sessions_of(b, contacts),
        match session_of(row, contacts) {
            Some(s) => sessions_of(seq![row], contacts) == seq![s],
            None => sessions_of(seq![row], contacts) == Seq::<SessionView>::empty(),
        },
    decreases b.len(),
{
    if b.len() == 0 {
        assert(a + b =~= a);
        assert(sessions_of(a, contacts) + sessions_of(b, contacts) =~= sessions_of(a, contacts));
    } else {
        law_sessions_one_by_one(a, b.drop_last(), row, contacts);
        assert((a + b).drop_last() =~= a + b.drop_last());
        assert(sessions_of(a + b, contacts) =~= sessions_of(a, contacts) + sessions_of(
            b,
            contacts,
        ));
    }
    assert(seq![row].drop_last() =~= Seq::empty());
    assert(sessions_of(seq![row].drop_last(), contacts) =~= Seq::empty());
    if let Some(s) = session_of(row, contacts) {
        assert(sessions_of(seq![row], contacts) =~= seq![s]);
    }
}

} // verus!
