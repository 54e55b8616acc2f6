//! Reading lists of elements: sessions, messages, and whether a text was sent.
use vstd::prelude::*;
use crate::bytes;
use crate::cell;
use crate::chat;
use crate::chat::{ChatMessage, ChatMessageChild, ChildView, ItemView, SessionInfo};
use crate::poll;
use crate::text;
use crate::tree;
use crate::tree::{NodeInfo, NodeView, Tree, TreeAnswer, TreeQuestion};
use crate::wechat::WeChat;

verus! {

// ---------------------------------------------------------------------
// Reading
// ---------------------------------------------------------------------

/// Which elements of a list are read.
#[derive(Debug, Clone, Copy, PartialEq, Eq, Structural)]
pub enum Part {
    /// The first few.
    First(i32),
    /// The last few.
    Last(i32),
}

/// Where reading starts and ends in a list of some length.
pub open spec fn span(part: Part, count: int) -> (int, int) {
    match part {
        Part::First(n) => (0, tree::lesser(count, n as int)),
        Part::Last(n) => if count <= 0 || n <= 0 {
            (0, 0)
        } else {
            (count - tree::lesser(n as int, count), count)
        },
    }
}

/// An element read with the elements inside it.
#[derive(Debug, Clone)]
pub struct ReadItem {
    /// Its place in the list.
    pub index: i32,
    pub node: NodeInfo,
    pub children: Vec<NodeInfo>,
}

/// An element read, as a mathematical value.
pub struct ReadView {
    pub index: i32,
    pub node: NodeView,
    pub children: Seq<NodeView>,
}

impl View for ReadItem {
    type V = ReadView;

    open spec fn view(&self) -> ReadView {
        ReadView {
            index: self.index,
            node: self.node@,
            children: cell::views_of(self.children@),
        }
    }
}

/// The children of an element from one place to another that can be had.
pub open spec fn children_between(t: Tree, node: u64, at: int, end: int) -> Seq<NodeView>
    decreases end - at,
{
    if at >= end {
        Seq::empty()
    } else {
        match (t.child)(node, at as i32) {
            Some(c) => seq![c] + children_between(t, node, at + 1, end),
            None => children_between(t, node, at + 1, end),
        }
    }
}

/// An element with its first few children.
pub open spec fn read_one(t: Tree, index: int, node: NodeView, inner: int) -> ReadView {
    ReadView {
        index: index as i32,
        node,
        children: children_between(
            t,
            node.id,
            0,
            tree::lesser((t.count)(node.id) as int, inner),
        ),
    }
}

/// The elements of a list from one place to another that can be had, each with
/// its first few children.
pub open spec fn items_between(t: Tree, list: u64, inner: int, at: int, end: int) -> Seq<ReadView>
    decreases end - at,
{
    if at >= end {
        Seq::empty()
    } else {
        match (t.child)(list, at as i32) {
            Some(c) => seq![read_one(t, at, c, inner)] + items_between(t, list, inner, at + 1, end),
            None => items_between(t, list, inner, at + 1, end),
        }
    }
}

/// A part of a list, each element with its first few children.
pub open spec fn read_list(t: Tree, list: u64, part: Part, inner: int) -> Seq<ReadView> {
    let s = span(part, (t.count)(list) as int);
    items_between(t, list, inner, s.0, s.1)
}

/// What a reading waits for.
#[derive(Debug, Clone, Copy, PartialEq, Eq, Structural)]
pub enum ReadStage {
    /// The length of the list.
    Count,
    /// The next element.
    Item,
    /// How many children the current element has.
    InnerCount,
    /// The next child of the current element.
    InnerItem,
    /// Nothing any more.
    Over,
}

/// A reading of a list under way.
#[derive(Debug, Clone)]
pub struct Reading {
    pub list: u64,
    pub part: Part,
    /// How many children of each element are read.
    pub inner: i32,
    pub stage: ReadStage,
    pub at: i32,
    pub end: i32,
    /// The current element, the last one read, and its children read so far.
    pub current: NodeInfo,
    pub children: Vec<NodeInfo>,
    pub inner_at: i32,
    pub inner_end: i32,
    pub items: Vec<ReadItem>,
}

impl Reading {
    /// Whether the parts fit together.
    pub open spec fn wf(&self) -> bool {
        match self.stage {
            ReadStage::Count => self.items@.len() == 0,
            ReadStage::Item => self.at < self.end,
            ReadStage::InnerCount => self.at < self.end && self.children@.len() == 0 && self.inner
                > 0,
            ReadStage::InnerItem => self.at < self.end && self.inner_at < self.inner_end,
            ReadStage::Over => true,
        }
    }

    /// The question to ask next.
    pub open spec fn next(&self) -> TreeQuestion {
        match self.stage {
            ReadStage::Count => TreeQuestion::Count { node: self.list },
            ReadStage::Item => TreeQuestion::Child { node: self.list, index: self.at },
            ReadStage::InnerCount => TreeQuestion::Count { node: self.current.id },
            ReadStage::InnerItem => TreeQuestion::Child {
                node: self.current.id,
                index: self.inner_at,
            },
            ReadStage::Over => TreeQuestion::Nothing,
        }
    }

    /// What will have been read once all questions are answered.
    pub open spec fn outcome(&self, t: Tree) -> Seq<ReadView> {
        let done = cell::views_of(self.items@);
        let inner = self.inner as int;
        match self.stage {
            ReadStage::Count => read_list(t, self.list, self.part, inner),
            ReadStage::Item => done + items_between(
                t,
                self.list,
                inner,
                self.at as int,
                self.end as int,
            ),
            ReadStage::InnerCount => done + seq![
                read_one(t, self.at as int, self.current@, inner),
            ] + items_between(t, self.list, inner, self.at + 1, self.end as int),
            ReadStage::InnerItem => done + seq![
                ReadView {
                    index: self.at,
                    node: self.current@,
                    children: cell::views_of(self.children@) + children_between(
                        t,
                        self.current.id,
                        self.inner_at as int,
                        self.inner_end as int,
                    ),
                },
            ] + items_between(t, self.list, inner, self.at + 1, self.end as int),
            ReadStage::Over => done,
        }
    }

    /// What is left to do, the weightiest part first.
    pub open spec fn work_left(&self) -> (int, int, int, int) {
        match self.stage {
            ReadStage::Count => (2, 0, 0, 0),
            ReadStage::Item => (1, self.end - self.at, 2, 0),
            ReadStage::InnerCount => (1, self.end - self.at, 1, 0),
            ReadStage::InnerItem => (1, self.end - self.at, 0, self.inner_end - self.inner_at),
            ReadStage::Over => (0, 0, 0, 0),
        }
    }

    /// Starts reading a part of a list, each element with its first few
    /// children.
    pub fn start(list: u64, part: Part, inner: i32) -> (r: Reading)
        ensures
            r.wf(),
            forall|t: Tree| #[trigger] r.outcome(t) == read_list(t, list, part, inner as int),
    {
        Reading {
            list,
            part,
            inner,
            stage: ReadStage::Count,
            at: 0,
            end: 0,
            current: NodeInfo {
                id: 0,
                role: String::new(),
                name: String::new(),
                structural: false,
            },
            children: Vec::new(),
            inner_at: 0,
            inner_end: 0,
            items: Vec::new(),
        }
    }

    /// The question to ask next.
    pub fn question(&self) -> (r: TreeQuestion)
        ensures
            r == self.next(),
            r is Nothing <==> self.stage == ReadStage::Over,
            self.stage == ReadStage::Over ==> forall|t: Tree| #[trigger]
                self.outcome(t) == cell::views_of(self.items@),
    {
        match self.stage {
            ReadStage::Count => TreeQuestion::Count { node: self.list },
            ReadStage::Item => TreeQuestion::Child { node: self.list, index: self.at },
            ReadStage::InnerCount => TreeQuestion::Count { node: self.current.id },
            ReadStage::InnerItem => TreeQuestion::Child {
                node: self.current.id,
                index: self.inner_at,
            },
            ReadStage::Over => TreeQuestion::Nothing,
        }
    }

    /// Ends the reading where the part of the list is done.
    fn settle(&mut self)
        requires
            old(self).stage == ReadStage::Item,
        ensures
            final(self).wf(),
            final(self).end == old(self).end,
            final(self).at == old(self).at,
            final(self).stage == ReadStage::Item || final(self).stage == ReadStage::Over,
            forall|t: Tree| #[trigger] final(self).outcome(t) == old(self).outcome(t),
    {
        let ghost start = *self;
        if self.at >= self.end {
            self.stage = ReadStage::Over;
            assert forall|t: Tree| #[trigger] self.outcome(t) == start.outcome(t) by {
                assert(start.outcome(t) =~= cell::views_of(start.items@));
            }
        }
    }

    /// Puts the current element, with its children, to those read, and goes on.
    fn close_item(&mut self)
        requires
            old(self).at < old(self).end,
            old(self).stage != ReadStage::Count,
        ensures
            final(self).wf(),
            final(self).end == old(self).end,
            final(self).at == old(self).at + 1,
            final(self).stage == ReadStage::Item || final(self).stage == ReadStage::Over,
            forall|t: Tree| #[trigger]
                final(self).outcome(t) == cell::views_of(old(self).items@) + seq![
                    ReadView {
                        index: old(self).at,
                        node: old(self).current@,
                        children: cell::views_of(old(self).children@),
                    },
                ] + items_between(
                    t,
                    old(self).list,
                    old(self).inner as int,
                    old(self).at + 1,
                    old(self).end as int,
                ),
    {
        let ghost start = *self;
        let mut children: Vec<NodeInfo> = Vec::new();
        std::mem::swap(&mut children, &mut self.children);
        let item = ReadItem { index: self.at, node: self.current.copy(), children };
        self.items.push(item);
        assert(cell::views_of(self.items@) =~= cell::views_of(start.items@) + seq![item@]);
        self.at = self.at + 1;
        self.stage = ReadStage::Item;
        self.settle();
    }

    /// Takes an answer to the question asked. An answer of the wrong kind
    /// changes nothing.
    pub fn answer(&mut self, a: TreeAnswer)
        requires
            old(self).wf(),
        ensures
            final(self).wf(),
            !tree::suits(old(self).next(), a) ==> *final(self) == *old(self),
            tree::suits(old(self).next(), a) ==> poll::less(
                final(self).work_left(),
                old(self).work_left(),
            ),
            forall|t: Tree|
                tree::answers(t, old(self).next(), a) ==> #[trigger] final(self).outcome(t)
                    == old(self).outcome(t),
    {
        let ghost start = *self;
        match (self.stage, a) {
            (ReadStage::Count, TreeAnswer::Count(count)) => {
                match self.part {
                    Part::First(n) => {
                        self.at = 0;
                        self.end = tree::least(count, n);
                    },
                    Part::Last(n) => {
                        if count <= 0 || n <= 0 {
                            self.at = 0;
                            self.end = 0;
                        } else {
                            self.at = count - tree::least(n, count);
                            self.end = count;
                        }
                    },
                }
                self.stage = ReadStage::Item;
                assert forall|t: Tree| tree::answers(t, start.next(), a) implies #[trigger] self.outcome(
                    t,
                ) == start.outcome(t) by {
                    assert(self.outcome(t) =~= start.outcome(t));
                }
                self.settle();
            },
            (ReadStage::Item, TreeAnswer::Child(c)) => {
                match c {
                    Some(n) => {
                        self.current = n;
                        self.children = Vec::new();
                        assert(cell::views_of(self.children@) =~= Seq::<NodeView>::empty());
                        if self.inner > 0 {
                            self.stage = ReadStage::InnerCount;
                            assert forall|t: Tree|
                                tree::answers(t, start.next(), a) implies #[trigger] self.outcome(t)
                                == start.outcome(t) by {
                                assert(self.outcome(t) =~= start.outcome(t));
                            }
                        } else {
                            let ghost before = *self;
                            self.close_item();
                            assert forall|t: Tree|
                                tree::answers(t, start.next(), a) implies #[trigger] self.outcome(t)
                                == start.outcome(t) by {
                                assert(read_one(t, start.at as int, n@, start.inner as int).children
                                    =~= Seq::<NodeView>::empty());
                                assert(self.outcome(t) =~= start.outcome(t));
                            }
                        }
                    },
                    None => {
                        self.at = self.at + 1;
                        self.settle();
                    },
                }
            },
            (ReadStage::InnerCount, TreeAnswer::Count(count)) => {
                self.inner_at = 0;
                self.inner_end = tree::least(count, self.inner);
                assert(cell::views_of(self.children@) =~= Seq::<NodeView>::empty());
                if self.inner_at < self.inner_end {
                    self.stage = ReadStage::InnerItem;
                    assert forall|t: Tree|
                        tree::answers(t, start.next(), a) implies #[trigger] self.outcome(t)
                        == start.outcome(t) by {
                        let kids = children_between(
                            t,
                            self.current.id,
                            0,
                            self.inner_end as int,
                        );
                        assert(cell::views_of(self.children@) + kids =~= kids);
                    }
                } else {
                    self.close_item();
                    assert forall|t: Tree|
                        tree::answers(t, start.next(), a) implies #[trigger] self.outcome(t)
                        == start.outcome(t) by {
                        assert(read_one(
                            t,
                            start.at as int,
                            start.current@,
                            start.inner as int,
                        ).children =~= Seq::<NodeView>::empty());
                    }
                }
            },
            (ReadStage::InnerItem, TreeAnswer::Child(c)) => {
                let ghost kids = cell::views_of(self.children@);
                if let Some(n) = c {
                    self.children.push(n);
                    assert(cell::views_of(self.children@) =~= kids + seq![n@]);
                }
                self.inner_at = self.inner_at + 1;
                assert forall|t: Tree| tree::answers(t, start.next(), a) implies #[trigger] self.outcome(
                    t,
                ) == start.outcome(t) by {
                    let rest = children_between(
                        t,
                        self.current.id,
                        self.inner_at as int,
                        self.inner_end as int,
                    );
                    assert(cell::views_of(self.children@) + rest =~= kids + children_between(
                        t,
                        start.current.id,
                        start.inner_at as int,
                        start.inner_end as int,
                    ));
                }
                if self.inner_at >= self.inner_end {
                    let ghost before = *self;
                    self.close_item();
                    assert forall|t: Tree|
                        tree::answers(t, start.next(), a) implies #[trigger] self.outcome(t)
                        == start.outcome(t) by {
                        assert(before.outcome(t) == start.outcome(t));
                        let none = children_between(
                            t,
                            before.current.id,
                            before.inner_at as int,
                            before.inner_end as int,
                        );
                        assert(none =~= Seq::<NodeView>::empty());
                        assert(cell::views_of(before.children@) + none =~= cell::views_of(
                            before.children@,
                        ));
                    }
                }
            },
            _ => {},
        }
    }
}

// ---------------------------------------------------------------------
// Sessions
// ---------------------------------------------------------------------

/// How many sessions are listed.
pub const SESSIONS_READ: i32 = 50;

/// How many elements inside each session are looked at.
pub const SESSION_PARTS: i32 = 10;

/// A session as the window lists it, as a mathematical value.
pub struct ListedView {
    pub name: Seq<char>,
    pub has_new: bool,
}

impl View for SessionInfo {
    type V = ListedView;

    open spec fn view(&self) -> ListedView {
        ListedView { name: self.name@, has_new: self.has_new }
    }
}

/// Whether an element shows how many messages are unread: a label that is a
/// number.
pub open spec fn is_badge(n: NodeView) -> bool {
    (n.role == "label"@ || n.role == "static"@) && n.name.len() > 0 && text::all_digits(n.name)
}

/// The session that an element shows; none where its name has no more than
/// one byte.
pub open spec fn session_in(item: ReadView) -> Option<ListedView> {
    let name = text::trim(item.node.name);
    if bytes::byte_len(name) > 1 {
        Some(
            ListedView {
                name,
                has_new: exists|i: int|
                    0 <= i < item.children.len() && is_badge(#[trigger] item.children[i]),
            },
        )
    } else {
        None
    }
}

/// The sessions that some elements show, in order.
pub open spec fn sessions_in(items: Seq<ReadView>) -> Seq<ListedView>
    decreases items.len(),
{
    if items.len() == 0 {
        Seq::empty()
    } else {
        match session_in(items.last()) {
            Some(s) => sessions_in(items.drop_last()).push(s),
            None => sessions_in(items.drop_last()),
        }
    }
}

/// Whether one of some elements shows how many messages are unread.
pub fn check_session_has_new(children: &Vec<NodeInfo>) -> (r: bool)
    ensures
        r == exists|i: int|
            0 <= i < children@.len() && is_badge((#[trigger] cell::views_of(children@)[i])),
{
    let mut i: usize = 0;
    while i < children.len()
        invariant
            0 <= i <= children@.len(),
            forall|j: int| 0 <= j < i ==> !is_badge((#[trigger] cell::views_of(children@)[j])),
        decreases children@.len() - i,
    {
        let c = &children[i];
        assert(cell::views_of(children@)[i as int] == c@);
        if (text::same(c.role.as_str(), "label") || text::same(c.role.as_str(), "static"))
            && !c.name.as_str().is_empty() && text::only_digits(c.name.as_str()) {
            return true;
        }
        i += 1;
    }
    false
}

/// Starts reading the list of sessions.
pub fn read_sessions(list: u64) -> (r: Reading)
    ensures
        r.wf(),
        forall|t: Tree| #[trigger]
            r.outcome(t) == read_list(
                t,
                list,
                Part::First(SESSIONS_READ),
                SESSION_PARTS as int,
            ),
{
    Reading::start(list, Part::First(SESSIONS_READ), SESSION_PARTS)
}

impl WeChat {
    /// The sessions that some elements show, in order.
    pub fn list_sessions(&self, items: &Vec<ReadItem>) -> (r: Vec<SessionInfo>)
        ensures
            cell::views_of(r@) == sessions_in(cell::views_of(items@)),
    {
        let mut r: Vec<SessionInfo> = Vec::new();
        let ghost all = cell::views_of(items@);
        let mut i: usize = 0;
        assert(cell::views_of(r@) =~= sessions_in(all.take(0)));
        while i < items.len()
            invariant
                0 <= i <= items@.len(),
                all == cell::views_of(items@),
                cell::views_of(r@) == sessions_in(all.take(i as int)),
            decreases items@.len() - i,
        {
            assert(all.take(i + 1).drop_last() =~= all.take(i as int));
            assert(all.take(i + 1).last() == items@[i as int]@);
            let ghost before = r@;
            let name = text::trimmed(items[i].node.name.as_str());
            if bytes::len_bytes(name.as_str()) > 1 {
                let has_new = check_session_has_new(&items[i].children);
                let s = SessionInfo { name, has_new };
                r.push(s);
                assert(cell::views_of(r@) =~= cell::views_of(before).push(s@));
                assert(Some(s@) == session_in(items@[i as int]@)) by {
                    let kids = items@[i as int]@.children;
                    assert(kids.len() == items@[i as int].children@.len());
                }
            }
            i += 1;
        }
        assert(all.take(all.len() as int) =~= all);
        r
    }
}

// ---------------------------------------------------------------------
// Messages
// ---------------------------------------------------------------------

/// How many messages are read.
pub const MESSAGES_READ: i32 = 100;

/// How many elements inside each message are read.
pub const MESSAGE_PARTS: i32 = 10;

/// The elements inside a message.
pub open spec fn parts_of(children: Seq<NodeView>) -> Seq<ChildView> {
    Seq::new(
        children.len(),
        |i: int| ChildView { role: children[i].role, name: children[i].name },
    )
}

/// The messages that some elements show.
pub open spec fn messages_in(items: Seq<ReadView>) -> Seq<ItemView> {
    Seq::new(
        items.len(),
        |i: int|
            chat::item_of(
                items[i].index,
                items[i].node.role,
                items[i].node.name,
                parts_of(items[i].children),
            ),
    )
}

/// Starts reading the list of messages.
pub fn read_messages(list: u64) -> (r: Reading)
    ensures
        r.wf(),
        forall|t: Tree| #[trigger]
            r.outcome(t) == read_list(
                t,
                list,
                Part::First(MESSAGES_READ),
                MESSAGE_PARTS as int,
            ),
{
    Reading::start(list, Part::First(MESSAGES_READ), MESSAGE_PARTS)
}

/// The message that an element shows.
fn message_in(item: &ReadItem) -> (r: ChatMessage)
    ensures
        r@ == chat::item_of(
            item@.index,
            item@.node.role,
            item@.node.name,
            parts_of(item@.children),
        ),
{
    let mut children: Vec<ChatMessageChild> = Vec::new();
    let mut i: usize = 0;
    while i < item.children.len()
        invariant
            0 <= i <= item.children@.len(),
            children@.len() == i,
            forall|j: int|
                0 <= j < i ==> (#[trigger] children@[j])@ == (ChildView {
                    role: item.children@[j]@.role,
                    name: item.children@[j]@.name,
                }),
        decreases item.children@.len() - i,
    {
        children.push(
            ChatMessageChild {
                role: item.children[i].role.clone(),
                name: item.children[i].name.clone(),
            },
        );
        i += 1;
    }
    assert(cell::views_of(children@) =~= parts_of(item@.children));
    chat::parse_message_item(
        item.index,
        item.node.role.as_str(),
        item.node.name.as_str(),
        children,
    )
}

impl WeChat {
    /// The messages that some elements show.
    pub fn get_all_messages(&self, items: &Vec<ReadItem>) -> (r: Vec<ChatMessage>)
        ensures
            cell::views_of(r@) == messages_in(cell::views_of(items@)),
    {
        let mut r: Vec<ChatMessage> = Vec::new();
        let mut i: usize = 0;
        while i < items.len()
            invariant
                0 <= i <= items@.len(),
                r@.len() == i,
                forall|j: int|
                    0 <= j < i ==> (#[trigger] r@[j])@ == messages_in(cell::views_of(items@))[j],
            decreases items@.len() - i,
        {
            r.push(message_in(&items[i]));
            i += 1;
        }
        assert(cell::views_of(r@) =~= messages_in(cell::views_of(items@)));
        r
    }
}

// ---------------------------------------------------------------------
// Whether a text was sent
// ---------------------------------------------------------------------

/// How many of the last messages are looked at.
pub const TAIL_READ: i32 = 3;

/// Whether a message shows that a text was sent: one holds the other, and
/// neither is much longer than twice the other.
pub open spec fn shows_text(name: Seq<char>, sent: Seq<char>) -> bool {
    let t = text::trim(name);
    let n = bytes::byte_len(t);
    let m = bytes::byte_len(sent);
    &&& t.len() > 0
    &&& n <= m * 2 + 10
    &&& m <= n * 2 + 10
    &&& text::occurs(t, sent) || text::occurs(sent, t)
}

/// Whether one of some messages shows that a text was sent.
pub open spec fn any_shows(items: Seq<ReadView>, sent: Seq<char>) -> bool {
    exists|i: int| 0 <= i < items.len() && shows_text((#[trigger] items[i]).node.name, sent)
}

/// Starts reading the last messages.
pub fn read_tail(list: u64) -> (r: Reading)
    ensures
        r.wf(),
        forall|t: Tree| #[trigger]
            r.outcome(t) == read_list(t, list, Part::Last(TAIL_READ), 0),
{
    Reading::start(list, Part::Last(TAIL_READ), 0)
}

/// Whether a message shows that a text was sent.
pub fn name_shows(name: &str, sent: &str) -> (r: bool)
    ensures
        r == shows_text(name@, sent@),
{
    let trimmed = text::trimmed(name);
    let t = trimmed.as_str();
    let n: u128 = bytes::len_bytes(t) as u128;
    let m: u128 = bytes::len_bytes(sent) as u128;
    !t.is_empty() && n <= m * 2 + 10 && m <= n * 2 + 10 && (text::contains(t, sent)
        || text::contains(sent, t))
}

/// Whether one of some messages shows that a text was sent.
pub fn verify_sent_in_list(items: &Vec<ReadItem>, sent: &str) -> (r: bool)
    ensures
        r == any_shows(cell::views_of(items@), sent@),
{
    let ghost all = cell::views_of(items@);
    let mut i: usize = 0;
    while i < items.len()
        invariant
            0 <= i <= items@.len(),
            all == cell::views_of(items@),
            forall|j: int|
                0 <= j < i ==> !shows_text((#[trigger] all[j]).node.name, sent@),
        decreases items@.len() - i,
    {
        assert(all[i as int] == items@[i as int]@);
        if name_shows(items[i].node.name.as_str(), sent) {
            return true;
        }
        i += 1;
    }
    false
}

/// A message that is exactly the text sent shows it, white space around it or
/// not.
pub proof fn law_exact_message_shows(name: Seq<char>, sent: Seq<char>)
    requires
        sent.len() > 0,
        text::trim(name) == sent,
    ensures
        shows_text(name, sent),
{
    assert(text::occurs_at(sent, sent, 0)) by {
        assert(sent.subrange(0, sent.len() as int) =~= sent);
    }
    bytes::lemma_byte_len(sent);
}

// ---------------------------------------------------------------------
// Laws on reading
// ---------------------------------------------------------------------

/// The first so many are those from the start, the last so many those up to the
/// end; all of them where there are fewer, and none where there are none.
pub proof fn law_first_and_last_parts(n: i32, count: int)
    ensures
        span(Part::First(n), count).0 == 0,
        n <= count ==> span(Part::First(n), count).1 == n,
        count <= n ==> span(Part::First(n), count).1 == count,
        0 < n <= count ==> span(Part::Last(n), count) == (count - n, count),
        0 < count <= n ==> span(Part::Last(n), count) == (0int, count),
        n <= 0 || count <= 0 ==> span(Part::Last(n), count).0 >= span(Part::Last(n), count).1,
{
}

/// A list is read element by element, each that is there once, with its place,
/// with what it shows and with so many of the elements inside it as asked for.
pub proof fn law_lists_are_read_one_by_one(
    t: Tree,
    list: u64,
    inner: int,
    at: int,
    mid: int,
    end: int,
)
    requires
        at <= mid <= end,
    ensures
        items_between(t, list, inner, at, end) == items_between(t, list, inner, at, mid)
            + items_between(t, list, inner, mid, end),
        children_between(t, list, at, end) == children_between(t, list, at, mid)
            + children_between(t, list, mid, end),
        (t.child)(list, at as i32) is None ==> items_between(t, list, inner, at, at + 1) == Seq::<
            ReadView,
        >::empty() && children_between(t, list, at, at + 1) == Seq::<NodeView>::empty(),
        (t.child)(list, at as i32) matches Some(c) ==> {
            &&& children_between(t, list, at, at + 1) == seq![c]
            &&& items_between(t, list, inner, at, at + 1) == seq![
                ReadView {
                    index: at as i32,
                    node: c,
                    children: children_between(
                        t,
                        c.id,
                        0,
                        if (t.count)(c.id) < inner {
                            (t.count)(c.id) as int
                        } else {
                            inner
                        },
                    ),
                },
            ]
        },
    decreases mid - at,
{
    reveal_with_fuel(items_between, 2);
    reveal_with_fuel(children_between, 2);
    assert(items_between(t, list, inner, at + 1, at + 1) =~= Seq::empty());
    assert(children_between(t, list, at + 1, at + 1) =~= Seq::empty());
    if let Some(c) = (t.child)(list, at as i32) {
        let one = seq![read_one(t, at, c, inner)];
        assert(one + Seq::<ReadView>::empty() =~= one);
        assert(seq![c] + Seq::<NodeView>::empty() =~= seq![c]);
    }
    if at < mid {
        law_lists_are_read_one_by_one(t, list, inner, at + 1, mid, end);
        assert(items_between(t, list, inner, at, end) =~= items_between(t, list, inner, at, mid)
            + items_between(t, list, inner, mid, end));
        assert(children_between(t, list, at, end) =~= children_between(t, list, at, mid)
            + children_between(t, list, mid, end));
    } else {
        assert(items_between(t, list, inner, at, mid) =~= Seq::empty());
        assert(children_between(t, list, at, mid) =~= Seq::empty());
        assert(items_between(t, list, inner, at, end) =~= Seq::<ReadView>::empty()
            + items_between(t, list, inner, mid, end));
        assert(children_between(t, list, at, end) =~= Seq::<NodeView>::empty()
            + children_between(t, list, mid, end));
    }
}

/// A session goes by its name without the white space around it, and has
/// something new exactly where one of its labels is a number; an element whose
/// name has at most one byte shows none.
pub proof fn law_sessions_go_by_their_names(
    item: ReadView,
    a: Seq<char>,
    name: Seq<char>,
    b: Seq<char>,
)
    requires
        text::all_space(a),
        text::all_space(b),
        item.node.name == a + name + b,
        name.len() > 0,
        !text::is_space(name[0]),
        !text::is_space(name.last()),
    ensures
        bytes::byte_len(name) <= 1 ==> session_in(item) is None,
        bytes::byte_len(name) > 1 ==> (session_in(item) matches Some(s) && s.name == name
            && s.has_new == exists|i: int|
            0 <= i < item.children.len() && ((#[trigger] item.children[i]).role == "label"@
                || item.children[i].role == "static"@) && item.children[i].name.len() > 0
                && text::all_digits(item.children[i].name)),
{
    text::law_trimmed_between(a, name, b);
    if let Some(s) = session_in(item) {
        if s.has_new {
            let i = choose|i: int|
                0 <= i < item.children.len() && is_badge(#[trigger] item.children[i]);
            assert(is_badge(item.children[i]));
        }
        if exists|i: int|
            0 <= i < item.children.len() && ((#[trigger] item.children[i]).role == "label"@
                || item.children[i].role == "static"@) && item.children[i].name.len() > 0
                && text::all_digits(item.children[i].name) {
            let i = choose|i: int|
                0 <= i < item.children.len() && ((#[trigger] item.children[i]).role == "label"@
                    || item.children[i].role == "static"@) && item.children[i].name.len() > 0
                    && text::all_digits(item.children[i].name);
            assert(is_badge(item.children[i]));
        }
    }
}

/// A blank element shows no session.
pub proof fn law_blank_elements_are_no_sessions(item: ReadView)
    requires
        text::all_space(item.node.name),
    ensures
        session_in(item) is None,
{
    let cut = text::law_trim_takes_white_space(item.node.name);
    assert(text::trim(item.node.name) =~= Seq::empty());
}

/// Every element that shows a session gives it, in order, and no other does.
pub proof fn law_listed_sessions_one_by_one(a: Seq<ReadView>, b: Seq<ReadView>, item: ReadView)
    ensures
        sessions_in(a + b) == sessions_in(a) + sessions_in(b),
        session_in(item) is None ==> sessions_in(seq![item]) == Seq::<ListedView>::empty(),
        session_in(item) matches Some(s) ==> sessions_in(seq![item]) == seq![s],
        sessions_in(Seq::empty()) == Seq::<ListedView>::empty(),
    decreases b.len(),
{
    reveal_with_fuel(sessions_in, 2);
    assert(seq![item].drop_last() =~= Seq::empty());
    if b.len() == 0 {
        assert(a + b =~= a);
        assert(sessions_in(a) + sessions_in(b) =~= sessions_in(a));
    } else {
        law_listed_sessions_one_by_one(a, b.drop_last(), item);
        assert((a + b).drop_last() =~= a + b.drop_last());
        assert((a + b).last() == b.last());
        assert(sessions_in(a + b) =~= sessions_in(a) + sessions_in(b));
    }
}

/// Every element gives one message, with its place, its role and its name, and
/// with the roles and names of all that is inside it.
pub proof fn law_every_element_is_a_message(items: Seq<ReadView>, i: int, j: int)
    requires
        0 <= i < items.len(),
    ensures
        messages_in(items).len() == items.len(),
        messages_in(items)[i].index == items[i].index,
        messages_in(items)[i].role == items[i].node.role,
        messages_in(items)[i].name == items[i].node.name,
        messages_in(items)[i].children.len() == items[i].children.len(),
        0 <= j < items[i].children.len() ==> messages_in(items)[i].children[j].role
            == items[i].children[j].role && messages_in(items)[i].children[j].name
            == items[i].children[j].name,
{
}

/// A message shows a text that it holds, or that holds it, unless one has more
/// than twice the bytes of the other and ten; a blank one and one that has
/// nothing to do with the text show nothing.
pub proof fn law_messages_show_texts(
    a: Seq<char>,
    c: Seq<char>,
    b: Seq<char>,
    head: Seq<char>,
    sent: Seq<char>,
    tail: Seq<char>,
    blank: Seq<char>,
)
    requires
        text::all_space(a),
        text::all_space(b),
        text::all_space(blank),
        c.len() > 0,
        !text::is_space(c[0]),
        !text::is_space(c.last()),
    ensures
        c == head + sent + tail && bytes::byte_len(c) <= 2 * bytes::byte_len(sent) + 10
            && bytes::byte_len(sent) <= 2 * bytes::byte_len(c) + 10 ==> shows_text(a + c + b, sent),
        sent == head + c + tail && bytes::byte_len(c) <= 2 * bytes::byte_len(sent) + 10
            && bytes::byte_len(sent) <= 2 * bytes::byte_len(c) + 10 ==> shows_text(a + c + b, sent),
        bytes::byte_len(c) > 2 * bytes::byte_len(sent) + 10 ==> !shows_text(a + c + b, sent),
        bytes::byte_len(sent) > 2 * bytes::byte_len(c) + 10 ==> !shows_text(a + c + b, sent),
        !text::occurs(c, sent) && !text::occurs(sent, c) ==> !shows_text(a + c + b, sent),
        !shows_text(blank, sent),
{
    text::law_trimmed_between(a, c, b);
    text::law_occurs_is_in_between(head, sent, tail);
    text::law_occurs_is_in_between(head, c, tail);
    let cut = text::law_trim_takes_white_space(blank);
}

/// Some messages show a text exactly where one of them does.
pub proof fn law_one_message_is_enough(
    a: Seq<ReadView>,
    b: Seq<ReadView>,
    item: ReadView,
    sent: Seq<char>,
)
    ensures
        any_shows(a + b, sent) <==> any_shows(a, sent) || any_shows(b, sent),
        any_shows(seq![item], sent) <==> shows_text(item.node.name, sent),
        !any_shows(Seq::empty(), sent),
{
    let all = a + b;
    if any_shows(all, sent) {
        let i = choose|i: int|
            0 <= i < all.len() && shows_text((#[trigger] all[i]).node.name, sent);
        if i < a.len() {
            assert(a[i] == all[i]);
        } else {
            assert(b[i - a.len()] == all[i]);
        }
    }
    if any_shows(a, sent) {
        let i = choose|i: int| 0 <= i < a.len() && shows_text((#[trigger] a[i]).node.name, sent);
        assert(all[i] == a[i]);
    }
    if any_shows(b, sent) {
        let i = choose|i: int| 0 <= i < b.len() && shows_text((#[trigger] b[i]).node.name, sent);
        assert(all[a.len() + i] == b[i]);
    }
    assert(seq![item][0] == item);
}

} // verus!
