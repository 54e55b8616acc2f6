//! Searching and reading the tree of elements that a program shows.
//!
//! Elements are known by numbers. A search asks one question at a time about
//! the tree and is told the answers; it decides where to look next.
use vstd::prelude::*;
use crate::chat;
use crate::text;

verus! {

// ---------------------------------------------------------------------
// The tree
// ---------------------------------------------------------------------

/// An element of the tree.
#[derive(Debug, Clone)]
pub struct NodeInfo {
    /// The number it is known by.
    pub id: u64,
    pub role: String,
    pub name: String,
    /// Whether it only groups other elements.
    pub structural: bool,
}

/// An element of the tree as a mathematical value.
pub struct NodeView {
    pub id: u64,
    pub role: Seq<char>,
    pub name: Seq<char>,
    pub structural: bool,
}

impl View for NodeInfo {
    type V = NodeView;

    open spec fn view(&self) -> NodeView {
        NodeView {
            id: self.id,
            role: self.role@,
            name: self.name@,
            structural: self.structural,
        }
    }
}

/// A tree of elements.
pub struct Tree {
    /// How many children an element has.
    pub count: spec_fn(u64) -> i32,
    /// The child of an element at a place, where it can be had.
    pub child: spec_fn(u64, i32) -> Option<NodeView>,
}

/// A question about the tree.
#[derive(Debug, Clone, Copy, PartialEq, Eq, Structural)]
pub enum TreeQuestion {
    /// How many children has an element?
    Count { node: u64 },
    /// Which child has an element at a place?
    Child { node: u64, index: i32 },
    /// None: the search is over.
    Nothing,
}

/// An answer about the tree.
#[derive(Debug, Clone)]
pub enum TreeAnswer {
    Count(i32),
    /// Nothing where the child cannot be had.
    Child(Option<NodeInfo>),
}

/// The view of an element that may be missing.
pub open spec fn node_view(n: Option<NodeInfo>) -> Option<NodeView> {
    match n {
        Some(n) => Some(n@),
        None => None,
    }
}

/// Whether an answer is the one that a tree gives to a question.
pub open spec fn answers(t: Tree, q: TreeQuestion, a: TreeAnswer) -> bool {
    match (q, a) {
        (TreeQuestion::Count { node }, TreeAnswer::Count(n)) => (t.count)(node) == n,
        (TreeQuestion::Child { node, index }, TreeAnswer::Child(c)) => (t.child)(node, index)
            == node_view(c),
        _ => false,
    }
}

/// Whether an answer is of the kind that a question asks for.
pub open spec fn suits(q: TreeQuestion, a: TreeAnswer) -> bool {
    match (q, a) {
        (TreeQuestion::Count { .. }, TreeAnswer::Count(_)) => true,
        (TreeQuestion::Child { .. }, TreeAnswer::Child(_)) => true,
        _ => false,
    }
}

/// The lesser of two numbers.
pub open spec fn lesser(a: int, b: int) -> int {
    if a < b {
        a
    } else {
        b
    }
}

/// The lesser of two numbers.
pub fn least(a: i32, b: i32) -> (r: i32)
    ensures
        r == lesser(a as int, b as int),
{
    if a < b {
        a
    } else {
        b
    }
}

impl NodeInfo {
    /// A copy of this element.
    pub fn copy(&self) -> (r: NodeInfo)
        ensures
            r@ == self@,
    {
        NodeInfo {
            id: self.id,
            role: self.role.clone(),
            name: self.name.clone(),
            structural: self.structural,
        }
    }
}

// ---------------------------------------------------------------------
// Parts of the window
// ---------------------------------------------------------------------

/// Whether an element is the navigation bar, which is there once the user is
/// logged in.
pub open spec fn nav_toolbar(role: Seq<char>, name: Seq<char>) -> bool {
    role == "tool bar"@ && (text::occurs(name, "导航"@) || text::occurs(name, "Navigation"@))
}

/// Whether an element parts the list of sessions from the chat.
pub open spec fn split_pane(role: Seq<char>) -> bool {
    role == "splitter"@ || role == "split pane"@
}

/// Whether an element is the list of sessions.
pub open spec fn session_list(role: Seq<char>, name: Seq<char>) -> bool {
    role == "list"@ && (text::occurs(name, "Chats"@) || text::occurs(name, "会话"@))
}

/// Whether an element is the list of messages.
pub open spec fn message_list(role: Seq<char>, name: Seq<char>) -> bool {
    role == "list"@ && (text::occurs(name, "Messages"@) || text::occurs(name, "消息"@))
}

/// Whether an element is where text is typed.
pub open spec fn edit_box(role: Seq<char>) -> bool {
    role == "entry"@ || role == "text"@
}

/// Whether an element is the navigation bar.
pub fn is_nav_toolbar(role: &str, name: &str) -> (r: bool)
    ensures
        r == nav_toolbar(role@, name@),
{
    text::same(role, "tool bar") && (text::contains(name, "导航") || text::contains(
        name,
        "Navigation",
    ))
}

/// Whether an element parts the list of sessions from the chat.
pub fn is_split_pane(role: &str) -> (r: bool)
    ensures
        r == split_pane(role@),
{
    text::same(role, "splitter") || text::same(role, "split pane")
}

/// Whether an element is the list of sessions.
pub fn is_session_list(role: &str, name: &str) -> (r: bool)
    ensures
        r == session_list(role@, name@),
{
    text::same(role, "list") && (text::contains(name, "Chats") || text::contains(name, "会话"))
}

/// Whether an element is the list of messages.
pub fn is_message_list(role: &str, name: &str) -> (r: bool)
    ensures
        r == message_list(role@, name@),
{
    text::same(role, "list") && (text::contains(name, "Messages") || text::contains(name, "消息"))
}

/// Whether an element is where text is typed.
pub fn is_edit_box(role: &str) -> (r: bool)
    ensures
        r == edit_box(role@),
{
    text::same(role, "entry") || text::same(role, "text")
}

// ---------------------------------------------------------------------
// Searching the children of an element
// ---------------------------------------------------------------------

/// What is looked for among the children of an element.
#[derive(Debug, Clone)]
pub enum Wanted {
    /// The chat program.
    App,
    /// Its main window.
    MainFrame,
    /// The window of a chat, among the program's windows.
    ChatFrame(String),
    /// A program that bears the name of a chat.
    Entry(String),
    /// A window that bears the name of a chat.
    Frame(String),
}

/// What is looked for, as a mathematical value.
pub enum WantedView {
    App,
    MainFrame,
    ChatFrame(Seq<char>),
    Entry(Seq<char>),
    Frame(Seq<char>),
}

impl View for Wanted {
    type V = WantedView;

    open spec fn view(&self) -> WantedView {
        match self {
            Wanted::App => WantedView::App,
            Wanted::MainFrame => WantedView::MainFrame,
            Wanted::ChatFrame(who) => WantedView::ChatFrame(who@),
            Wanted::Entry(who) => WantedView::Entry(who@),
            Wanted::Frame(who) => WantedView::Frame(who@),
        }
    }
}

/// Whether an element is what is looked for.
pub open spec fn fits(p: WantedView, n: NodeView) -> bool {
    match p {
        WantedView::App => chat::wechat_name(n.name),
        WantedView::MainFrame => n.role == "frame"@ && chat::main_name(n.name),
        WantedView::ChatFrame(who) => n.role == "frame"@ && text::occurs(n.name, who)
            && !chat::main_name(n.name),
        WantedView::Entry(who) => text::occurs(n.name, who) && !chat::main_name(n.name),
        WantedView::Frame(who) => n.role == "frame"@ && text::occurs(n.name, who),
    }
}

/// How many children are looked at: all of them, or the first few.
pub open spec fn looked_at(p: WantedView, count: int) -> int {
    match p {
        WantedView::App => count,
        WantedView::MainFrame => lesser(count, 10),
        WantedView::ChatFrame(_) => lesser(count, 20),
        WantedView::Entry(_) => count,
        WantedView::Frame(_) => lesser(count, 5),
    }
}

/// The first child from one place to another that is what is looked for, and
/// its place.
pub open spec fn first_between(
    t: Tree,
    node: u64,
    p: WantedView,
    at: int,
    end: int,
) -> Option<(NodeView, int)>
    decreases end - at,
{
    if at >= end {
        None
    } else {
        match (t.child)(node, at as i32) {
            Some(c) => if fits(p, c) {
                Some((c, at))
            } else {
                first_between(t, node, p, at + 1, end)
            },
            None => first_between(t, node, p, at + 1, end),
        }
    }
}

/// The first child from a place on that is what is looked for.
pub open spec fn first_from(t: Tree, node: u64, p: WantedView, from: int) -> Option<(NodeView, int)> {
    first_between(t, node, p, from, looked_at(p, (t.count)(node) as int))
}

impl Wanted {
    /// Whether an element is what is looked for.
    pub fn is_met(&self, n: &NodeInfo) -> (r: bool)
        ensures
            r == fits(self@, n@),
    {
        match self {
            Wanted::App => chat::is_wechat(n.name.as_str()),
            Wanted::MainFrame => text::same(n.role.as_str(), "frame") && chat::is_wechat_main(
                n.name.as_str(),
            ),
            Wanted::ChatFrame(who) => text::same(n.role.as_str(), "frame") && text::contains(
                n.name.as_str(),
                who.as_str(),
            ) && !chat::is_wechat_main(n.name.as_str()),
            Wanted::Entry(who) => text::contains(n.name.as_str(), who.as_str())
                && !chat::is_wechat_main(n.name.as_str()),
            Wanted::Frame(who) => text::same(n.role.as_str(), "frame") && text::contains(
                n.name.as_str(),
                who.as_str(),
            ),
        }
    }

    /// How many children are looked at.
    fn reach(&self, count: i32) -> (r: i32)
        ensures
            r == looked_at(self@, count as int),
    {
        match self {
            Wanted::App => count,
            Wanted::MainFrame => least(count, 10),
            Wanted::ChatFrame(_) => least(count, 20),
            Wanted::Entry(_) => count,
            Wanted::Frame(_) => least(count, 5),
        }
    }
}

/// A search among the children of an element.
#[derive(Debug, Clone)]
pub struct ChildSearch {
    pub node: u64,
    pub wanted: Wanted,
    /// The place to look at next.
    pub at: i32,
    /// Where to stop, once that is known.
    pub end: Option<i32>,
    /// What was found, and at which place.
    pub found: Option<(NodeInfo, i32)>,
}

/// The view of what a search has found.
pub open spec fn found_view(f: Option<(NodeInfo, i32)>) -> Option<(NodeView, int)> {
    match f {
        Some(p) => Some((p.0@, p.1 as int)),
        None => None,
    }
}

impl ChildSearch {
    /// Whether the search is over.
    pub open spec fn over(&self) -> bool {
        self.found is Some || (self.end is Some && self.at >= self.end->0)
    }

    /// The question to ask next.
    pub open spec fn next(&self) -> TreeQuestion {
        if self.over() {
            TreeQuestion::Nothing
        } else {
            match self.end {
                None => TreeQuestion::Count { node: self.node },
                Some(_) => TreeQuestion::Child { node: self.node, index: self.at },
            }
        }
    }

    /// What the search will have found once all questions are answered.
    pub open spec fn outcome(&self, t: Tree) -> Option<(NodeView, int)> {
        match self.found {
            Some(_) => found_view(self.found),
            None => match self.end {
                Some(end) => first_between(t, self.node, self.wanted@, self.at as int, end as int),
                None => first_from(t, self.node, self.wanted@, self.at as int),
            },
        }
    }

    /// What is left to do, the weightiest part first.
    pub open spec fn work_left(&self) -> (int, int) {
        (
            if self.end is None && self.found is None {
                1
            } else {
                0
            },
            if self.over() || self.end is None {
                0
            } else {
                self.end->0 - self.at
            },
        )
    }

    /// Starts a search among the children of an element, from a place on.
    pub fn start(node: u64, wanted: Wanted, from: i32) -> (r: ChildSearch)
        ensures
            r.node == node,
            r.wanted == wanted,
            forall|t: Tree| #[trigger]
                r.outcome(t) == first_from(t, node, wanted@, from as int),
    {
        ChildSearch { node, wanted, at: from, end: None, found: None }
    }

    /// The question to ask next.
    pub fn question(&self) -> (r: TreeQuestion)
        ensures
            r == self.next(),
            r is Nothing <==> self.over(),
            self.over() ==> forall|t: Tree| #[trigger]
                self.outcome(t) == found_view(self.found),
    {
        if self.found.is_some() {
            return TreeQuestion::Nothing;
        }
        match self.end {
            None => TreeQuestion::Count { node: self.node },
            Some(end) => if self.at >= end {
                TreeQuestion::Nothing
            } else {
                TreeQuestion::Child { node: self.node, index: self.at }
            },
        }
    }

    /// Takes an answer to the question asked. An answer of the wrong kind
    /// changes nothing.
    pub fn answer(&mut self, a: TreeAnswer)
        ensures
            final(self).node == old(self).node,
            final(self).wanted == old(self).wanted,
            !suits(old(self).next(), a) ==> *final(self) == *old(self),
            suits(old(self).next(), a) ==> less(final(self).work_left(), old(self).work_left()),
            forall|t: Tree|
                answers(t, old(self).next(), a) ==> #[trigger] final(self).outcome(t)
                    == old(self).outcome(t),
    {
        if self.found.is_some() {
            return;
        }
        match (self.end, a) {
            (None, TreeAnswer::Count(n)) => {
                self.end = Some(self.wanted.reach(n));
            },
            (Some(end), TreeAnswer::Child(c)) => {
                if self.at < end {
                    match c {
                        Some(n) => {
                            if self.wanted.is_met(&n) {
                                self.found = Some((n, self.at));
                            } else {
                                self.at = self.at + 1;
                            }
                        },
                        None => {
                            self.at = self.at + 1;
                        },
                    }
                }
            },
            _ => {},
        }
    }
}

/// Whether less is left in the first of two measures.
pub open spec fn less(a: (int, int), b: (int, int)) -> bool {
    a.0 < b.0 || (a.0 == b.0 && a.1 < b.1)
}

// ---------------------------------------------------------------------
// Laws on parts of a window
// ---------------------------------------------------------------------

/// Each part of the window is known by its role and by a word in its name, in
/// either language; with another role it is not that part, whatever its name.
pub proof fn law_parts_are_known(a: Seq<char>, b: Seq<char>, role: Seq<char>, name: Seq<char>)
    ensures
        nav_toolbar("tool bar"@, a + "导航"@ + b),
        nav_toolbar("tool bar"@, a + "Navigation"@ + b),
        session_list("list"@, a + "Chats"@ + b),
        session_list("list"@, a + "会话"@ + b),
        message_list("list"@, a + "Messages"@ + b),
        message_list("list"@, a + "消息"@ + b),
        nav_toolbar(role, name) ==> role == "tool bar"@ && name.len() >= 2,
        session_list(role, name) ==> role == "list"@ && name.len() >= 2,
        message_list(role, name) ==> role == "list"@ && name.len() >= 2,
        nav_toolbar(role, name) ==> text::occurs(name, "导航"@) || text::occurs(
            name,
            "Navigation"@,
        ),
        session_list(role, name) ==> text::occurs(name, "Chats"@) || text::occurs(name, "会话"@),
        message_list(role, name) ==> text::occurs(name, "Messages"@) || text::occurs(
            name,
            "消息"@,
        ),
        split_pane(role) <==> role == "splitter"@ || role == "split pane"@,
        edit_box(role) <==> role == "entry"@ || role == "text"@,
{
    reveal_strlit("导航");
    reveal_strlit("Navigation");
    reveal_strlit("Chats");
    reveal_strlit("会话");
    reveal_strlit("Messages");
    reveal_strlit("消息");
    text::law_occurs_is_in_between(a, "导航"@, b);
    text::law_occurs_is_in_between(a, "Navigation"@, b);
    text::law_occurs_is_in_between(a, "Chats"@, b);
    text::law_occurs_is_in_between(a, "会话"@, b);
    text::law_occurs_is_in_between(a, "Messages"@, b);
    text::law_occurs_is_in_between(a, "消息"@, b);
}

/// The window of a chat is a frame with the chat in its name that is not the
/// main window; its entry in the list of programs need not be a frame.
pub proof fn law_windows_are_known(n: NodeView, who: Seq<char>, a: Seq<char>, b: Seq<char>)
    ensures
        n.name == a + who + b && !chat::main_name(n.name) ==> fits(WantedView::Entry(who), n),
        n.name == a + who + b && n.role == "frame"@ ==> fits(WantedView::Frame(who), n),
        fits(WantedView::ChatFrame(who), n) <==> fits(WantedView::Frame(who), n) && fits(
            WantedView::Entry(who),
            n,
        ),
        fits(WantedView::Frame(who), n) ==> n.role == "frame"@ && text::occurs(n.name, who),
        fits(WantedView::Entry(who), n) ==> text::occurs(n.name, who) && !chat::main_name(n.name),
        fits(WantedView::MainFrame, n) <==> n.role == "frame"@ && chat::main_name(n.name),
        fits(WantedView::MainFrame, n) ==> !fits(WantedView::ChatFrame(who), n),
        fits(WantedView::App, n) <==> chat::wechat_name(n.name),
{
    text::law_occurs_is_in_between(a, who, b);
}

/// All programs and entries are looked at, but only the first ten windows for
/// the main one, the first twenty for a chat's and the first five of an entry.
pub proof fn law_how_many_are_looked_at(who: Seq<char>, count: int)
    ensures
        looked_at(WantedView::App, count) == count,
        looked_at(WantedView::Entry(who), count) == count,
        count <= 10 ==> looked_at(WantedView::MainFrame, count) == count,
        count > 10 ==> looked_at(WantedView::MainFrame, count) == 10,
        count <= 20 ==> looked_at(WantedView::ChatFrame(who), count) == count,
        count > 20 ==> looked_at(WantedView::ChatFrame(who), count) == 20,
        count <= 5 ==> looked_at(WantedView::Frame(who), count) == count,
        count > 5 ==> looked_at(WantedView::Frame(who), count) == 5,
{
}

/// Whether a child of an element is what is wanted.
pub open spec fn child_fits(t: Tree, node: u64, p: WantedView, i: int) -> bool {
    (t.child)(node, i as i32) matches Some(c) && fits(p, c)
}

/// The child that is found is the first that is wanted, told with its place;
/// nothing is found only where none of those looked at is wanted.
pub proof fn law_first_child_is_found(t: Tree, node: u64, p: WantedView, at: int, end: int)
    ensures
        match first_between(t, node, p, at, end) {
            Some((c, i)) => at <= i < end && (t.child)(node, i as i32) == Some(c) && child_fits(
                t,
                node,
                p,
                i,
            ) && forall|j: int| at <= j < i ==> !#[trigger] child_fits(t, node, p, j),
            None => forall|j: int| at <= j < end ==> !#[trigger] child_fits(t, node, p, j),
        },
    decreases end - at,
{
    if at < end && !child_fits(t, node, p, at) {
        law_first_child_is_found(t, node, p, at + 1, end);
    }
}

} // verus!
