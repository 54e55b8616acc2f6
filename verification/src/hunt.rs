//! Searching all that stands below an element, level by level or branch by
//! branch.
use vstd::prelude::*;
use crate::poll;
use crate::text;
use crate::tree;
use crate::tree::{NodeInfo, NodeView, Tree, TreeAnswer, TreeQuestion};
use crate::wechat::WeChat;

verus! {

// ---------------------------------------------------------------------
// What is looked for
// ---------------------------------------------------------------------

/// What is looked for below an element.
#[derive(Debug, Clone)]
pub enum Sought {
    /// A session by its name.
    Session(String),
    NavToolbar,
    SplitPane,
    SessionList,
    MessageList,
    EditBox,
}

/// What is looked for as a mathematical value.
pub enum SoughtView {
    Session(Seq<char>),
    NavToolbar,
    SplitPane,
    SessionList,
    MessageList,
    EditBox,
}

impl View for Sought {
    type V = SoughtView;

    open spec fn view(&self) -> SoughtView {
        match self {
            Sought::Session(name) => SoughtView::Session(name@),
            Sought::NavToolbar => SoughtView::NavToolbar,
            Sought::SplitPane => SoughtView::SplitPane,
            Sought::SessionList => SoughtView::SessionList,
            Sought::MessageList => SoughtView::MessageList,
            Sought::EditBox => SoughtView::EditBox,
        }
    }
}

/// Whether an element bears a name: it has one that is more than white space,
/// and holds the name.
pub open spec fn bears(n: NodeView, name: Seq<char>) -> bool {
    text::trim(n.name).len() > 0 && text::occurs(n.name, name)
}

/// Whether an element is what is looked for.
pub open spec fn is_sought(n: NodeView, s: SoughtView) -> bool {
    match s {
        SoughtView::Session(name) => bears(n, name),
        SoughtView::NavToolbar => tree::nav_toolbar(n.role, n.name),
        SoughtView::SplitPane => tree::split_pane(n.role),
        SoughtView::SessionList => tree::session_list(n.role, n.name),
        SoughtView::MessageList => tree::message_list(n.role, n.name),
        SoughtView::EditBox => tree::edit_box(n.role),
    }
}

/// Whether a search goes on below an element: one for a session does so only
/// where the element groups others.
pub open spec fn goes_below(n: NodeView, s: SoughtView) -> bool {
    s is Session ==> n.structural
}

impl Sought {
    /// Whether an element is what is looked for.
    fn is_met(&self, n: &NodeInfo) -> (r: bool)
        ensures
            r == is_sought(n@, self@),
    {
        let role = n.role.as_str();
        let name = n.name.as_str();
        match self {
            Sought::Session(wanted) => {
                let trimmed = text::trimmed(name);
                !trimmed.as_str().is_empty() && text::contains(name, wanted.as_str())
            },
            Sought::NavToolbar => tree::is_nav_toolbar(role, name),
            Sought::SplitPane => tree::is_split_pane(role),
            Sought::SessionList => tree::is_session_list(role, name),
            Sought::MessageList => tree::is_message_list(role, name),
            Sought::EditBox => tree::is_edit_box(role),
        }
    }

    /// Whether a search goes on below an element.
    fn goes_on_below(&self, n: &NodeInfo) -> (r: bool)
        ensures
            r == goes_below(n@, self@),
    {
        match self {
            Sought::Session(_) => n.structural,
            _ => true,
        }
    }
}

// ---------------------------------------------------------------------
// Level by level
// ---------------------------------------------------------------------

/// Looks at the children of an element from one place to another: the first
/// that is looked for, and the elements passed before that are searched
/// further, added to those of the level.
pub open spec fn scan_node(
    t: Tree,
    node: u64,
    s: SoughtView,
    at: int,
    end: int,
    below: Seq<u64>,
) -> (Option<u64>, Seq<u64>)
    decreases end - at,
{
    if at >= end {
        (None, below)
    } else {
        match (t.child)(node, at as i32) {
            Some(c) => if is_sought(c, s) {
                (Some(c.id), below)
            } else {
                scan_node(
                    t,
                    node,
                    s,
                    at + 1,
                    end,
                    if goes_below(c, s) {
                        below.push(c.id)
                    } else {
                        below
                    },
                )
            },
            None => scan_node(t, node, s, at + 1, end, below),
        }
    }
}

/// Looks at the first children of the elements of a level from a place on.
pub open spec fn scan_level(
    t: Tree,
    level: Seq<u64>,
    i: int,
    s: SoughtView,
    children: int,
    below: Seq<u64>,
) -> (Option<u64>, Seq<u64>)
    decreases level.len() - i,
{
    if i >= level.len() {
        (None, below)
    } else {
        let r = scan_node(
            t,
            level[i],
            s,
            0,
            tree::lesser((t.count)(level[i]) as int, children),
            below,
        );
        if r.0 is Some {
            r
        } else {
            scan_level(t, level, i + 1, s, children, r.1)
        }
    }
}

/// The first element below some that is looked for, level by level: so many
/// levels, and so many children of each element.
pub open spec fn search_levels(
    t: Tree,
    level: Seq<u64>,
    s: SoughtView,
    levels: int,
    children: int,
) -> Option<u64>
    decreases levels,
{
    if levels <= 0 || level.len() == 0 {
        None
    } else {
        let r = scan_level(t, level, 0, s, children, Seq::empty());
        match r.0 {
            Some(id) => Some(id),
            None => search_levels(t, r.1, s, levels - 1, children),
        }
    }
}

/// What a level gives: what was found in it, or else what the next ones give.
pub open spec fn level_done(
    t: Tree,
    r: (Option<u64>, Seq<u64>),
    s: SoughtView,
    levels: int,
    children: int,
) -> Option<u64> {
    match r.0 {
        Some(id) => Some(id),
        None => search_levels(t, r.1, s, levels - 1, children),
    }
}

/// A search level by level.
#[derive(Debug, Clone)]
pub struct WideSearch {
    pub sought: Sought,
    /// How many children of each element are looked at.
    pub children: i32,
    /// How many levels are left, the current one included.
    pub levels: u32,
    /// The elements of the current level, and which of them is looked at.
    pub level: Vec<u64>,
    pub i: usize,
    /// The elements of the next level, so far.
    pub below: Vec<u64>,
    /// The child to look at next, and where to stop, once that is known.
    pub at: i32,
    pub end: Option<i32>,
    pub found: Option<u64>,
    pub over: bool,
}

impl WideSearch {
    /// Whether the parts fit together.
    pub open spec fn wf(&self) -> bool {
        &&& self.found is Some ==> self.over
        &&& !self.over ==> self.i < self.level@.len() && self.levels > 0
        &&& !self.over && self.end is Some ==> self.at < self.end->0
    }

    /// The question to ask next.
    pub open spec fn next(&self) -> TreeQuestion {
        if self.over {
            TreeQuestion::Nothing
        } else {
            match self.end {
                None => TreeQuestion::Count { node: self.level@[self.i as int] },
                Some(_) => TreeQuestion::Child {
                    node: self.level@[self.i as int],
                    index: self.at,
                },
            }
        }
    }

    /// What the search will have found once all questions are answered.
    pub open spec fn outcome(&self, t: Tree) -> Option<u64> {
        let level = self.level@;
        let i = self.i as int;
        let s = self.sought@;
        let levels = self.levels as int;
        let children = self.children as int;
        if self.over {
            self.found
        } else {
            match self.end {
                None => level_done(
                    t,
                    scan_level(t, level, i, s, children, self.below@),
                    s,
                    levels,
                    children,
                ),
                Some(end) => {
                    let r = scan_node(t, level[i], s, self.at as int, end as int, self.below@);
                    if r.0 is Some {
                        r.0
                    } else {
                        level_done(
                            t,
                            scan_level(t, level, i + 1, s, children, r.1),
                            s,
                            levels,
                            children,
                        )
                    }
                },
            }
        }
    }

    /// What is left to do, the weightiest part first.
    pub open spec fn work_left(&self) -> (int, int, int, int) {
        if self.over {
            (0, 0, 0, 0)
        } else {
            (
                1 + self.levels,
                self.level@.len() - self.i,
                if self.end is None {
                    1
                } else {
                    0
                },
                match self.end {
                    Some(end) => end - self.at,
                    None => 0,
                },
            )
        }
    }

    /// Starts a search below an element.
    fn start(node: u64, sought: Sought, levels: u32, children: i32) -> (r: WideSearch)
        ensures
            r.wf(),
            forall|t: Tree| #[trigger]
                r.outcome(t) == search_levels(
                    t,
                    seq![node],
                    sought@,
                    levels as int,
                    children as int,
                ),
    {
        let mut level: Vec<u64> = Vec::new();
        level.push(node);
        let r = WideSearch {
            sought,
            children,
            levels,
            level,
            i: 0,
            below: Vec::new(),
            at: 0,
            end: None,
            found: None,
            over: levels == 0,
        };
        assert(r.level@ =~= seq![node]);
        assert(r.below@ =~= Seq::<u64>::empty());
        r
    }

    /// The question to ask next.
    pub fn question(&self) -> (r: TreeQuestion)
        requires
            self.wf(),
        ensures
            r == self.next(),
            r is Nothing <==> self.over,
            self.over ==> forall|t: Tree| #[trigger] self.outcome(t) == self.found,
    {
        if self.over {
            return TreeQuestion::Nothing;
        }
        match self.end {
            None => TreeQuestion::Count { node: self.level[self.i] },
            Some(_) => TreeQuestion::Child { node: self.level[self.i], index: self.at },
        }
    }

    /// Goes on to the next element, or level, where the current one is done.
    fn settle(&mut self, end: i32)
        requires
            !old(self).over,
            old(self).found is None,
            old(self).i < old(self).level@.len(),
            old(self).levels > 0,
            old(self).end == Some(end),
        ensures
            final(self).wf(),
            forall|t: Tree| #[trigger] final(self).outcome(t) == old(self).outcome(t),
            old(self).at < end ==> *final(self) == *old(self),
            old(self).at >= end ==> poll::less(
                final(self).work_left(),
                (old(self).work_left().0, old(self).work_left().1, 0, 0),
            ),
    {
        if self.at < end {
            return;
        }
        let ghost start = *self;
        assert(self.i < self.level.len());
        self.i = self.i + 1;
        self.at = 0;
        self.end = None;
        if self.i == self.level.len() {
            self.levels = self.levels - 1;
            if self.levels == 0 || self.below.len() == 0 {
                self.over = true;
                assert forall|t: Tree| #[trigger] self.outcome(t) == start.outcome(t) by {
                    assert(search_levels(
                        t,
                        start.below@,
                        start.sought@,
                        start.levels - 1,
                        start.children as int,
                    ) is None);
                }
            } else {
                let mut next: Vec<u64> = Vec::new();
                std::mem::swap(&mut next, &mut self.below);
                self.level = next;
                self.i = 0;
                assert(self.below@ =~= Seq::<u64>::empty());
                assert forall|t: Tree| #[trigger] self.outcome(t) == start.outcome(t) by {
                    assert(self.level@ == start.below@);
                }
            }
        }
    }

    /// Takes an answer to the question asked. An answer of the wrong kind
    /// changes nothing.
    pub fn answer(&mut self, a: TreeAnswer)
        requires
            old(self).wf(),
        ensures
            final(self).wf(),
            !tree::suits(old(self).next(), a) ==> *final(self) == *old(self),
            tree::suits(old(self).next(), a) ==> poll::less(
                final(self).work_left(),
                old(self).work_left(),
            ),
            forall|t: Tree|
                tree::answers(t, old(self).next(), a) ==> #[trigger] final(self).outcome(t)
                    == old(self).outcome(t),
    {
        if self.over {
            return;
        }
        match (self.end, a) {
            (None, TreeAnswer::Count(n)) => {
                let end: i32 = tree::least(n, self.children);
                self.at = 0;
                self.end = Some(end);
                self.settle(end);
            },
            (Some(end), TreeAnswer::Child(c)) => {
                match c {
                    Some(n) => {
                        if self.sought.is_met(&n) {
                            self.found = Some(n.id);
                            self.over = true;
                            return;
                        }
                        if self.sought.goes_on_below(&n) {
                            self.below.push(n.id);
                        }
                    },
                    None => {},
                }
                self.at = self.at + 1;
                self.settle(end);
            },
            _ => {},
        }
    }
}

/// How many levels below the list are searched for a session.
pub const SESSION_LEVELS: u32 = 6;

/// How many children of each element are searched for a session.
pub const SESSION_CHILDREN: i32 = 30;

impl WeChat {
    /// Starts a search for a session by its name, below an element.
    pub fn find_session(&self, container: u64, name: &str) -> (r: WideSearch)
        ensures
            r.wf(),
            forall|t: Tree| #[trigger]
                r.outcome(t) == search_levels(
                    t,
                    seq![container],
                    SoughtView::Session(name@),
                    SESSION_LEVELS as int,
                    SESSION_CHILDREN as int,
                ),
    {
        WideSearch::start(
            container,
            Sought::Session(name.to_owned()),
            SESSION_LEVELS,
            SESSION_CHILDREN,
        )
    }

    /// Starts a search for the navigation bar, which shows that the user is
    /// logged in: so many levels, and so many children of each element.
    pub fn find_nav_toolbar(&self, app: u64, levels: u32, children: i32) -> (r: WideSearch)
        ensures
            r.wf(),
            forall|t: Tree| #[trigger]
                r.outcome(t) == search_levels(
                    t,
                    seq![app],
                    SoughtView::NavToolbar,
                    levels as int,
                    children as int,
                ),
    {
        WideSearch::start(app, Sought::NavToolbar, levels, children)
    }

    /// Starts a search for what parts the list of sessions from the chat: so
    /// many levels, and so many children of each element.
    pub fn find_split_pane(&self, app: u64, levels: u32, children: i32) -> (r: WideSearch)
        ensures
            r.wf(),
            forall|t: Tree| #[trigger]
                r.outcome(t) == search_levels(
                    t,
                    seq![app],
                    SoughtView::SplitPane,
                    levels as int,
                    children as int,
                ),
    {
        WideSearch::start(app, Sought::SplitPane, levels, children)
    }
}

// ---------------------------------------------------------------------
// Branch by branch
// ---------------------------------------------------------------------

/// How many levels below the program are searched for a part of its window.
pub const PART_LEVELS: usize = 18;

/// How many children of each element are searched for a part of the window.
pub const PART_CHILDREN: i32 = 20;

/// How many children of an element are looked at.
pub open spec fn reach(t: Tree, node: u64) -> int {
    tree::lesser((t.count)(node) as int, PART_CHILDREN as int)
}

/// The first element that is looked for among some children of an element and
/// all below them, each child before what stands below it, and that before the
/// next child.
pub open spec fn search_branch(
    t: Tree,
    node: u64,
    s: SoughtView,
    at: int,
    end: int,
    levels: int,
) -> Option<u64>
    decreases levels, end - at,
{
    if levels <= 0 || at >= end {
        None
    } else {
        match (t.child)(node, at as i32) {
            Some(c) => if is_sought(c, s) {
                Some(c.id)
            } else {
                match search_branch(t, c.id, s, 0, reach(t, c.id), levels - 1) {
                    Some(id) => Some(id),
                    None => search_branch(t, node, s, at + 1, end, levels),
                }
            },
            None => search_branch(t, node, s, at + 1, end, levels),
        }
    }
}

/// An element whose children are being looked at.
#[derive(Debug, Clone, Copy)]
pub struct Branch {
    pub node: u64,
    /// The child to look at next, and where to stop, once that is known.
    pub at: i32,
    pub end: Option<i32>,
}

/// What is found from a branch on, with so many levels left.
pub open spec fn in_branch(t: Tree, b: Branch, s: SoughtView, levels: int) -> Option<u64> {
    let end = match b.end {
        Some(end) => end as int,
        None => reach(t, b.node),
    };
    search_branch(t, b.node, s, b.at as int, end, levels)
}

/// What is found from some branches on, the last first; each stands a level
/// below the one before.
pub open spec fn in_branches(t: Tree, bs: Seq<Branch>, s: SoughtView) -> Option<u64>
    decreases bs.len(),
{
    if bs.len() == 0 {
        None
    } else {
        match in_branch(t, bs.last(), s, PART_LEVELS + 1 - bs.len()) {
            Some(id) => Some(id),
            None => in_branches(t, bs.drop_last(), s),
        }
    }
}

/// The most answers that an element can take whose children are not counted
/// yet, with so many levels left.
pub open spec fn most_answers(levels: int) -> int
    decreases levels,
{
    if levels <= 0 {
        1
    } else {
        1 + PART_CHILDREN * (1 + most_answers(levels - 1))
    }
}

/// The most answers that a branch can take.
pub open spec fn branch_work(b: Branch, levels: int) -> int {
    match b.end {
        Some(end) => if b.at < end {
            (end - b.at) * (1 + most_answers(levels - 1))
        } else {
            0
        },
        None => most_answers(levels),
    }
}

/// The most answers that some branches can take.
pub open spec fn branches_work(bs: Seq<Branch>) -> int
    decreases bs.len(),
{
    if bs.len() == 0 {
        0
    } else {
        branches_work(bs.drop_last()) + branch_work(bs.last(), PART_LEVELS + 1 - bs.len())
    }
}

proof fn lemma_most_answers(levels: int)
    ensures
        most_answers(levels) >= 1,
    decreases levels,
{
    if levels > 0 {
        lemma_most_answers(levels - 1);
    }
}

proof fn lemma_branches_work(bs: Seq<Branch>)
    ensures
        branches_work(bs) >= 0,
    decreases bs.len(),
{
    if bs.len() > 0 {
        lemma_branches_work(bs.drop_last());
        let b = bs.last();
        let levels = PART_LEVELS + 1 - bs.len();
        lemma_most_answers(levels);
        lemma_most_answers(levels - 1);
        if b.end is Some && b.at < b.end->0 {
            let n = b.end->0 - b.at;
            let c = 1 + most_answers(levels - 1);
            assert(n * c >= 0) by (nonlinear_arith)
                requires
                    n >= 0,
                    c >= 0,
            ;
        }
    }
}

/// A search branch by branch.
#[derive(Debug, Clone)]
pub struct DeepSearch {
    pub sought: Sought,
    /// The elements on the way to where the search is, the lowest last.
    pub path: Vec<Branch>,
    pub found: Option<u64>,
}

impl DeepSearch {
    /// Whether the parts fit together.
    pub open spec fn wf(&self) -> bool {
        &&& self.path@.len() <= PART_LEVELS
        &&& self.found is Some ==> self.path@.len() == 0
        &&& self.path@.len() > 0 ==> match self.path@.last().end {
            Some(end) => self.path@.last().at < end,
            None => self.path@.last().at == 0,
        }
        &&& forall|k: int|
            0 <= k < self.path@.len() - 1 ==> (#[trigger] self.path@[k]).end is Some
    }

    /// Whether the search is over.
    pub open spec fn over(&self) -> bool {
        self.path@.len() == 0
    }

    /// The question to ask next.
    pub open spec fn next(&self) -> TreeQuestion {
        if self.path@.len() == 0 {
            TreeQuestion::Nothing
        } else {
            match self.path@.last().end {
                None => TreeQuestion::Count { node: self.path@.last().node },
                Some(_) => TreeQuestion::Child {
                    node: self.path@.last().node,
                    index: self.path@.last().at,
                },
            }
        }
    }

    /// What the search will have found once all questions are answered.
    pub open spec fn outcome(&self, t: Tree) -> Option<u64> {
        if self.over() {
            self.found
        } else {
            in_branches(t, self.path@, self.sought@)
        }
    }

    /// The most answers that the search can still take.
    pub open spec fn work_left(&self) -> int {
        branches_work(self.path@)
    }

    /// Starts a search below an element.
    fn start(node: u64, sought: Sought) -> (r: DeepSearch)
        ensures
            r.wf(),
            forall|t: Tree| #[trigger]
                r.outcome(t) == search_branch(
                    t,
                    node,
                    sought@,
                    0,
                    reach(t, node),
                    PART_LEVELS as int,
                ),
    {
        let mut path: Vec<Branch> = Vec::new();
        path.push(Branch { node, at: 0, end: None });
        let r = DeepSearch { sought, path, found: None };
        assert forall|t: Tree| #[trigger] r.outcome(t) == search_branch(
            t,
            node,
            sought@,
            0,
            reach(t, node),
            PART_LEVELS as int,
        ) by {
            assert(r.path@.drop_last() =~= Seq::<Branch>::empty());
            assert(in_branches(t, r.path@.drop_last(), sought@) is None);
        }
        r
    }

    /// The question to ask next.
    pub fn question(&self) -> (r: TreeQuestion)
        requires
            self.wf(),
        ensures
            r == self.next(),
            r is Nothing <==> self.over(),
            self.over() ==> forall|t: Tree| #[trigger] self.outcome(t) == self.found,
    {
        let n = self.path.len();
        if n == 0 {
            return TreeQuestion::Nothing;
        }
        let b = self.path[n - 1];
        match b.end {
            None => TreeQuestion::Count { node: b.node },
            Some(_) => TreeQuestion::Child { node: b.node, index: b.at },
        }
    }

    /// Goes back up from branches that are done.
    fn settle(&mut self)
        requires
            old(self).path@.len() <= PART_LEVELS,
            old(self).found is None,
            forall|k: int|
                0 <= k < old(self).path@.len() - 1 ==> (#[trigger] old(self).path@[k]).end is Some,
            old(self).path@.len() > 0 && old(self).path@.last().end is None
                ==> old(self).path@.last().at == 0,
        ensures
            final(self).wf(),
            final(self).sought == old(self).sought,
            forall|t: Tree| #[trigger]
                final(self).outcome(t) == in_branches(t, old(self).path@, old(self).sought@),
            final(self).work_left() <= branches_work(old(self).path@),
    {
        let ghost first = self.path@;
        let mut go_on = true;
        while go_on && self.path.len() > 0
            invariant
                self.path@.len() <= PART_LEVELS,
                self.found is None,
                self.sought == old(self).sought,
                forall|k: int|
                    0 <= k < self.path@.len() - 1 ==> (#[trigger] self.path@[k]).end is Some,
                self.path@.len() > 0 && self.path@.last().end is None ==> self.path@.last().at == 0,
                forall|t: Tree| #[trigger]
                    in_branches(t, self.path@, self.sought@) == in_branches(
                        t,
                        first,
                        self.sought@,
                    ),
                branches_work(self.path@) <= branches_work(first),
                !go_on ==> self.wf(),
            ensures
                self.wf(),
                self.found is None,
                self.sought == old(self).sought,
                forall|t: Tree| #[trigger]
                    in_branches(t, self.path@, self.sought@) == in_branches(
                        t,
                        first,
                        self.sought@,
                    ),
                branches_work(self.path@) <= branches_work(first),
            decreases self.path@.len(), if go_on {
                1int
            } else {
                0
            },
        {
            let n = self.path.len();
            let b = self.path[n - 1];
            let done = match b.end {
                Some(end) => b.at >= end,
                None => false,
            };
            if done {
                let ghost before = self.path@;
                self.path.pop();
                assert(self.path@ =~= before.drop_last());
                assert forall|t: Tree| #[trigger]
                    in_branches(t, self.path@, self.sought@) == in_branches(
                        t,
                        first,
                        self.sought@,
                    ) by {
                    assert(in_branches(t, before, self.sought@) == in_branches(
                        t,
                        first,
                        self.sought@,
                    ));
                }
            } else {
                go_on = false;
            }
        }
    }

    /// Takes an answer to the question asked. An answer of the wrong kind
    /// changes nothing.
    pub fn answer(&mut self, a: TreeAnswer)
        requires
            old(self).wf(),
        ensures
            final(self).wf(),
            final(self).sought == old(self).sought,
            !tree::suits(old(self).next(), a) ==> *final(self) == *old(self),
            tree::suits(old(self).next(), a) ==> 0 <= final(self).work_left() < old(
                self,
            ).work_left(),
            forall|t: Tree|
                tree::answers(t, old(self).next(), a) ==> #[trigger] final(self).outcome(t)
                    == old(self).outcome(t),
    {
        let n = self.path.len();
        if n == 0 {
            return;
        }
        let ghost before = self.path@;
        let ghost s = self.sought@;
        let ghost levels: int = PART_LEVELS + 1 - n;
        let b = self.path[n - 1];
        proof {
            lemma_branches_work(before.drop_last());
            lemma_most_answers(levels - 1);
            lemma_most_answers(levels - 2);
        }
        match (b.end, a) {
            (None, TreeAnswer::Count(count)) => {
                let end: i32 = tree::least(count, PART_CHILDREN);
                let next = Branch { node: b.node, at: b.at, end: Some(end) };
                self.path.pop();
                self.path.push(next);
                assert(self.path@.drop_last() =~= before.drop_last());
                proof {
                    lemma_counted(b, next, levels, end);
                    lemma_branches_work(self.path@);
                }
                let ghost counted = self.path@;
                self.settle();
                proof {
                    lemma_branches_work(self.path@);
                }
                assert forall|t: Tree|
                    tree::answers(t, old(self).next(), a) implies #[trigger] self.outcome(t)
                    == old(self).outcome(t) by {
                    assert(in_branch(t, next, s, levels) == in_branch(t, b, s, levels));
                    assert(self.outcome(t) == in_branches(t, counted, s));
                }
            },
            (Some(end), TreeAnswer::Child(c)) => {
                let next = Branch { node: b.node, at: b.at + 1, end: b.end };
                let mut lower: Option<u64> = None;
                match &c {
                    Some(child) => {
                        if self.sought.is_met(child) {
                            self.found = Some(child.id);
                            self.path.clear();
                            proof {
                                lemma_stepped(b, next, levels);
                                assert(self.path@ =~= Seq::<Branch>::empty());
                            }
                            return;
                        }
                        if n < PART_LEVELS {
                            lower = Some(child.id);
                        }
                    },
                    None => {},
                }
                self.path.pop();
                self.path.push(next);
                assert(self.path@.drop_last() =~= before.drop_last());
                proof {
                    lemma_stepped(b, next, levels);
                }
                let ghost stepped = self.path@;
                if let Some(id) = lower {
                    self.path.push(Branch { node: id, at: 0, end: None });
                    assert(self.path@.drop_last() =~= stepped);
                }
                let ghost grown = self.path@;
                assert(branches_work(grown) < branches_work(before)) by {
                    assert(branches_work(stepped) == branches_work(before.drop_last())
                        + branch_work(next, levels));
                }
                self.settle();
                proof {
                    lemma_branches_work(self.path@);
                }
                assert forall|t: Tree|
                    tree::answers(t, old(self).next(), a) implies #[trigger] self.outcome(t)
                    == old(self).outcome(t) by {
                    assert(self.outcome(t) == in_branches(t, grown, s));
                    assert(in_branches(t, before, s) == match in_branch(t, b, s, levels) {
                        Some(id) => Some(id),
                        None => in_branches(t, before.drop_last(), s),
                    });
                    assert(in_branches(t, stepped, s) == match in_branch(t, next, s, levels) {
                        Some(id) => Some(id),
                        None => in_branches(t, before.drop_last(), s),
                    });
                    match c {
                        Some(child) => {
                            let low = search_branch(
                                t,
                                child.id,
                                s,
                                0,
                                reach(t, child.id),
                                levels - 1,
                            );
                            assert(in_branch(t, b, s, levels) == match low {
                                Some(id) => Some(id),
                                None => in_branch(t, next, s, levels),
                            });
                            if n < PART_LEVELS {
                                assert(grown.last() == (Branch {
                                    node: child.id,
                                    at: 0,
                                    end: None,
                                }));
                                assert(in_branch(t, grown.last(), s, levels - 1) == low);
                            } else {
                                assert(low is None);
                            }
                        },
                        None => {
                            assert(in_branch(t, b, s, levels) == in_branch(t, next, s, levels));
                        },
                    }
                }
            },
            _ => {},
        }
    }
}

/// Counting the children of an element leaves less to do.
proof fn lemma_counted(b: Branch, next: Branch, levels: int, end: i32)
    requires
        b.end is None,
        b.at == 0,
        levels > 0,
        next == (Branch { node: b.node, at: b.at, end: Some(end) }),
        end <= PART_CHILDREN,
    ensures
        0 <= branch_work(next, levels) < branch_work(b, levels),
{
    lemma_most_answers(levels - 1);
    let c = 1 + most_answers(levels - 1);
    if end > 0 {
        assert(0 <= end * c <= PART_CHILDREN * c) by (nonlinear_arith)
            requires
                0 <= end <= PART_CHILDREN,
                c >= 0,
        ;
    }
}

/// Looking at a child leaves less to do, even where what stands below it is to
/// be looked at too.
proof fn lemma_stepped(b: Branch, next: Branch, levels: int)
    requires
        b.end is Some,
        b.at < b.end->0,
        next.node == b.node,
        next.end == b.end,
        next.at == b.at + 1,
    ensures
        branch_work(next, levels) + 1 + most_answers(levels - 1) == branch_work(b, levels),
        branch_work(next, levels) >= 0,
{
    lemma_most_answers(levels - 1);
    let n = b.end->0 - b.at;
    let c = 1 + most_answers(levels - 1);
    assert((n - 1) * c == n * c - c) by (nonlinear_arith);
    assert((n - 1) * c >= 0) by (nonlinear_arith)
        requires
            n >= 1,
            c >= 0,
    ;
    if n == 1 {
        assert(n * c == c) by (nonlinear_arith)
            requires
                n == 1,
        ;
    }
}

impl WeChat {
    /// Starts a search for the list of sessions.
    pub fn find_session_list(&self, app: u64) -> (r: DeepSearch)
        ensures
            r.wf(),
            forall|t: Tree| #[trigger]
                r.outcome(t) == search_branch(
                    t,
                    app,
                    SoughtView::SessionList,
                    0,
                    reach(t, app),
                    PART_LEVELS as int,
                ),
    {
        DeepSearch::start(app, Sought::SessionList)
    }

    /// Starts a search for the list of messages.
    pub fn find_message_list(&self, app: u64) -> (r: DeepSearch)
        ensures
            r.wf(),
            forall|t: Tree| #[trigger]
                r.outcome(t) == search_branch(
                    t,
                    app,
                    SoughtView::MessageList,
                    0,
                    reach(t, app),
                    PART_LEVELS as int,
                ),
    {
        DeepSearch::start(app, Sought::MessageList)
    }

    /// Starts a search for where text is typed.
    pub fn find_edit_box(&self, app: u64) -> (r: DeepSearch)
        ensures
            r.wf(),
            forall|t: Tree| #[trigger]
                r.outcome(t) == search_branch(
                    t,
                    app,
                    SoughtView::EditBox,
                    0,
                    reach(t, app),
                    PART_LEVELS as int,
                ),
    {
        DeepSearch::start(app, Sought::EditBox)
    }
}

// ---------------------------------------------------------------------
// Laws
// ---------------------------------------------------------------------

/// Whether a tree has, as the child of some element, one by this number that is
/// looked for.
pub open spec fn is_there(t: Tree, s: SoughtView, id: u64) -> bool {
    exists|node: u64, at: i32|
        ((#[trigger] (t.child)(node, at)) matches Some(c) && c.id == id && is_sought(c, s))
}

/// A search branch by branch gives only what it looks for.
pub proof fn law_branch_gives_what_is_sought(
    t: Tree,
    node: u64,
    s: SoughtView,
    at: int,
    end: int,
    levels: int,
)
    ensures
        search_branch(t, node, s, at, end, levels) matches Some(id) ==> is_there(t, s, id),
    decreases levels, end - at,
{
    if levels > 0 && at < end {
        law_branch_gives_what_is_sought(t, node, s, at + 1, end, levels);
        match (t.child)(node, at as i32) {
            Some(c) => {
                law_branch_gives_what_is_sought(t, c.id, s, 0, reach(t, c.id), levels - 1);
                if is_sought(c, s) {
                    assert(is_there(t, s, c.id));
                }
            },
            None => {},
        }
    }
}

proof fn lemma_node_gives_sought(
    t: Tree,
    node: u64,
    s: SoughtView,
    at: int,
    end: int,
    below: Seq<u64>,
)
    ensures
        scan_node(t, node, s, at, end, below).0 matches Some(id) ==> is_there(t, s, id),
    decreases end - at,
{
    if at < end {
        match (t.child)(node, at as i32) {
            Some(c) => {
                if is_sought(c, s) {
                    assert(is_there(t, s, c.id));
                }
                lemma_node_gives_sought(t, node, s, at + 1, end, below.push(c.id));
                lemma_node_gives_sought(t, node, s, at + 1, end, below);
            },
            None => {
                lemma_node_gives_sought(t, node, s, at + 1, end, below);
            },
        }
    }
}

proof fn lemma_level_gives_sought(
    t: Tree,
    level: Seq<u64>,
    i: int,
    s: SoughtView,
    children: int,
    below: Seq<u64>,
)
    ensures
        scan_level(t, level, i, s, children, below).0 matches Some(id) ==> is_there(t, s, id),
    decreases level.len() - i,
{
    if i < level.len() {
        let end = tree::lesser((t.count)(level[i]) as int, children);
        lemma_node_gives_sought(t, level[i], s, 0, end, below);
        let r = scan_node(t, level[i], s, 0, end, below);
        lemma_level_gives_sought(t, level, i + 1, s, children, r.1);
    }
}

/// A search level by level gives only what it looks for.
pub proof fn law_levels_give_what_is_sought(
    t: Tree,
    level: Seq<u64>,
    s: SoughtView,
    levels: int,
    children: int,
)
    ensures
        search_levels(t, level, s, levels, children) matches Some(id) ==> is_there(t, s, id),
    decreases levels,
{
    if levels > 0 && level.len() > 0 {
        lemma_level_gives_sought(t, level, 0, s, children, Seq::empty());
        let r = scan_level(t, level, 0, s, children, Seq::empty());
        law_levels_give_what_is_sought(t, r.1, s, levels - 1, children);
    }
}

/// What a chat's entry in the list of sessions bears: a name that is not blank
/// and in which the chat's stands. The other parts are known as parts of the
/// window.
pub proof fn law_entries_bear_names(n: NodeView, a: Seq<char>, name: Seq<char>, b: Seq<char>)
    ensures
        n.name == a + name + b && !text::all_space(n.name) ==> is_sought(
            n,
            SoughtView::Session(name),
        ),
        is_sought(n, SoughtView::Session(name)) ==> text::occurs(n.name, name) && !text::all_space(
            n.name,
        ),
        is_sought(n, SoughtView::NavToolbar) == tree::nav_toolbar(n.role, n.name),
        is_sought(n, SoughtView::SplitPane) == tree::split_pane(n.role),
        is_sought(n, SoughtView::SessionList) == tree::session_list(n.role, n.name),
        is_sought(n, SoughtView::MessageList) == tree::message_list(n.role, n.name),
        is_sought(n, SoughtView::EditBox) == tree::edit_box(n.role),
{
    text::law_occurs_is_in_between(a, name, b);
    let cut = text::law_trim_takes_white_space(n.name);
}

/// The children of an element between two places that are there.
pub open spec fn kids(t: Tree, node: u64, at: int, end: int) -> Seq<NodeView>
    decreases end - at,
{
    if at >= end {
        Seq::empty()
    } else {
        (match (t.child)(node, at as i32) {
            Some(c) => seq![c],
            None => Seq::empty(),
        }) + kids(t, node, at + 1, end)
    }
}

/// The children of all elements of a level, so many of each at most.
pub open spec fn level_kids(t: Tree, level: Seq<u64>, i: int, children: int) -> Seq<NodeView>
    decreases level.len() - i,
{
    if i >= level.len() {
        Seq::empty()
    } else {
        kids(
            t,
            level[i],
            0,
            if (t.count)(level[i]) < children {
                (t.count)(level[i]) as int
            } else {
                children
            },
        ) + level_kids(t, level, i + 1, children)
    }
}

/// The elements below which the search goes on: every one, but for a chat's
/// entry only those that hold others.
pub open spec fn lower(ks: Seq<NodeView>, s: SoughtView) -> Seq<u64>
    decreases ks.len(),
{
    if ks.len() == 0 {
        Seq::empty()
    } else if ks.last().structural || !(s is Session) {
        lower(ks.drop_last(), s).push(ks.last().id)
    } else {
        lower(ks.drop_last(), s)
    }
}

proof fn lemma_lower_first(c: NodeView, ks: Seq<NodeView>, s: SoughtView)
    ensures
        lower(seq![c] + ks, s) == lower(seq![c], s) + lower(ks, s),
        lower(seq![c], s) == if goes_below(c, s) {
            seq![c.id]
        } else {
            Seq::empty()
        },
    decreases ks.len(),
{
    let one = seq![c];
    assert(one.drop_last() =~= Seq::empty());
    reveal_with_fuel(lower, 2);
    if ks.len() == 0 {
        assert(one + ks =~= one);
        assert(lower(one, s) + lower(ks, s) =~= lower(one, s));
    } else {
        lemma_lower_first(c, ks.drop_last(), s);
        assert((one + ks).drop_last() =~= one + ks.drop_last());
        assert((one + ks).last() == ks.last());
        assert(lower(one + ks, s) =~= lower(one, s) + lower(ks, s));
    }
}

proof fn lemma_lower_parts(a: Seq<NodeView>, b: Seq<NodeView>, s: SoughtView)
    ensures
        lower(a + b, s) == lower(a, s) + lower(b, s),
    decreases b.len(),
{
    if b.len() == 0 {
        assert(a + b =~= a);
        assert(lower(a, s) + lower(b, s) =~= lower(a, s));
    } else {
        lemma_lower_parts(a, b.drop_last(), s);
        assert((a + b).drop_last() =~= a + b.drop_last());
        assert((a + b).last() == b.last());
        assert(lower(a + b, s) =~= lower(a, s) + lower(b, s));
    }
}

/// The first of some elements that is looked for, if any.
pub open spec fn first_sought(ks: Seq<NodeView>, s: SoughtView) -> Option<u64>
    decreases ks.len(),
{
    if ks.len() == 0 {
        None
    } else if is_sought(ks[0], s) {
        Some(ks[0].id)
    } else {
        first_sought(ks.skip(1), s)
    }
}

proof fn lemma_first_parts(a: Seq<NodeView>, b: Seq<NodeView>, s: SoughtView)
    ensures
        first_sought(a + b, s) == match first_sought(a, s) {
            Some(id) => Some(id),
            None => first_sought(b, s),
        },
    decreases a.len(),
{
    if a.len() == 0 {
        assert(a + b =~= b);
    } else {
        assert((a + b)[0] == a[0]);
        assert((a + b).skip(1) =~= a.skip(1) + b);
        lemma_first_parts(a.skip(1), b, s);
    }
}

proof fn lemma_first_sought(ks: Seq<NodeView>, s: SoughtView)
    ensures
        match first_sought(ks, s) {
            Some(id) => exists|i: int|
                0 <= i < ks.len() && (#[trigger] ks[i]).id == id && is_sought(ks[i], s)
                    && forall|j: int| 0 <= j < i ==> !is_sought(#[trigger] ks[j], s),
            None => forall|j: int| 0 <= j < ks.len() ==> !is_sought(#[trigger] ks[j], s),
        },
    decreases ks.len(),
{
    if ks.len() > 0 && !is_sought(ks[0], s) {
        let rest = ks.skip(1);
        lemma_first_sought(rest, s);
        match first_sought(rest, s) {
            Some(id) => {
                let i = choose|i: int|
                    0 <= i < rest.len() && (#[trigger] rest[i]).id == id && is_sought(rest[i], s)
                        && forall|j: int| 0 <= j < i ==> !is_sought(#[trigger] rest[j], s);
                assert(ks[i + 1] == rest[i]);
                assert forall|j: int| 0 <= j < i + 1 implies !is_sought(#[trigger] ks[j], s) by {
                    if j > 0 {
                        assert(ks[j] == rest[j - 1]);
                    }
                }
            },
            None => {
                assert forall|j: int| 0 <= j < ks.len() implies !is_sought(#[trigger] ks[j], s) by {
                    if j > 0 {
                        assert(ks[j] == rest[j - 1]);
                    }
                }
            },
        }
    }
}

proof fn lemma_scan_node(t: Tree, node: u64, s: SoughtView, at: int, end: int, below: Seq<u64>)
    ensures
        ({
            let ks = kids(t, node, at, end);
            let r = scan_node(t, node, s, at, end, below);
            &&& r.0 == first_sought(ks, s)
            &&& r.0 is None ==> r.1 == below + lower(ks, s)
        }),
    decreases end - at,
{
    let ks = kids(t, node, at, end);
    if at >= end {
        assert(below + lower(ks, s) =~= below);
    } else {
        let rest = kids(t, node, at + 1, end);
        match (t.child)(node, at as i32) {
            Some(c) => {
                assert(ks[0] == c);
                assert(ks.skip(1) =~= rest);
                lemma_lower_first(c, rest, s);
                let next = if goes_below(c, s) {
                    below.push(c.id)
                } else {
                    below
                };
                lemma_scan_node(t, node, s, at + 1, end, next);
                assert(next + lower(rest, s) =~= below + lower(ks, s));
            },
            None => {
                assert(ks =~= rest);
                lemma_scan_node(t, node, s, at + 1, end, below);
            },
        }
    }
}

proof fn lemma_scan_level(
    t: Tree,
    level: Seq<u64>,
    i: int,
    s: SoughtView,
    children: int,
    below: Seq<u64>,
)
    ensures
        ({
            let ks = level_kids(t, level, i, children);
            let r = scan_level(t, level, i, s, children, below);
            &&& r.0 == first_sought(ks, s)
            &&& r.0 is None ==> r.1 == below + lower(ks, s)
        }),
    decreases level.len() - i,
{
    let ks = level_kids(t, level, i, children);
    if i >= level.len() {
        assert(below + lower(ks, s) =~= below);
    } else {
        let end = tree::lesser((t.count)(level[i]) as int, children);
        let own = kids(t, level[i], 0, end);
        let rest = level_kids(t, level, i + 1, children);
        let r = scan_node(t, level[i], s, 0, end, below);
        lemma_scan_node(t, level[i], s, 0, end, below);
        lemma_first_parts(own, rest, s);
        lemma_lower_parts(own, rest, s);
        if r.0 is None {
            lemma_scan_level(t, level, i + 1, s, children, r.1);
            assert(below + lower(own, s) + lower(rest, s) =~= below + lower(ks, s));
        }
    }
}

/// Searching level by level, the first of a level that is looked for is found
/// before anything further down; where there is none, the search goes on below,
/// one level less; and without levels left nothing is found.
pub proof fn law_nearest_level_comes_first(
    t: Tree,
    level: Seq<u64>,
    s: SoughtView,
    levels: int,
    children: int,
    k: int,
)
    requires
        levels > 0,
    ensures
        ({
            let ks = level_kids(t, level, 0, children);
            &&& 0 <= k < ks.len() && is_sought(ks[k], s) && (forall|j: int|
                0 <= j < k ==> !is_sought(#[trigger] ks[j], s)) ==> search_levels(
                t,
                level,
                s,
                levels,
                children,
            ) == Some(ks[k].id)
            &&& (forall|j: int| 0 <= j < ks.len() ==> !is_sought(#[trigger] ks[j], s))
                ==> search_levels(t, level, s, levels, children) == search_levels(
                t,
                lower(ks, s),
                s,
                levels - 1,
                children,
            )
            &&& search_levels(t, level, s, 0, children) is None
            &&& search_levels(t, Seq::empty(), s, levels, children) is None
        }),
{
    let ks = level_kids(t, level, 0, children);
    lemma_scan_level(t, level, 0, s, children, Seq::empty());
    lemma_first_sought(ks, s);
    assert(Seq::<u64>::empty() + lower(ks, s) =~= lower(ks, s));
    if level.len() == 0 {
        assert(lower(ks, s) =~= level);
        lemma_nothing_to_search(t, s, levels - 1, children);
        assert(level =~= Seq::empty());
    }
}

proof fn lemma_nothing_to_search(t: Tree, s: SoughtView, levels: int, children: int)
    ensures
        search_levels(t, Seq::empty(), s, levels, children) is None,
{
}

/// What a child of an element gives to a search branch by branch: itself, where
/// it is looked for, or else what its own branch gives.
pub open spec fn child_gives(t: Tree, node: u64, s: SoughtView, i: int, levels: int) -> Option<u64> {
    match (t.child)(node, i as i32) {
        Some(c) => if is_sought(c, s) {
            Some(c.id)
        } else {
            search_branch(
                t,
                c.id,
                s,
                0,
                if (t.count)(c.id) < 20 {
                    (t.count)(c.id) as int
                } else {
                    20
                },
                levels - 1,
            )
        },
        None => None,
    }
}

/// Searching branch by branch, the first child that gives anything decides, with
/// all that stands below it; nothing is found only where no child gives
/// anything, or where no levels are left.
pub proof fn law_first_branch_decides(
    t: Tree,
    node: u64,
    s: SoughtView,
    at: int,
    end: int,
    levels: int,
    k: int,
)
    requires
        levels > 0,
        at <= k < end,
    ensures
        child_gives(t, node, s, k, levels) is Some && (forall|j: int|
            at <= j < k ==> (#[trigger] child_gives(t, node, s, j, levels)) is None)
            ==> search_branch(t, node, s, at, end, levels) == child_gives(t, node, s, k, levels),
        (forall|j: int| at <= j < end ==> (#[trigger] child_gives(t, node, s, j, levels)) is None)
            ==> search_branch(t, node, s, at, end, levels) is None,
        search_branch(t, node, s, at, end, 0) is None,
        reach(t, node) == if (t.count)(node) < 20 {
            (t.count)(node) as int
        } else {
            20
        },
    decreases end - at,
{
    if child_gives(t, node, s, at, levels) is None {
        assert(search_branch(t, node, s, at, end, levels) == search_branch(
            t,
            node,
            s,
            at + 1,
            end,
            levels,
        ));
        if k > at {
            law_first_branch_decides(t, node, s, at + 1, end, levels, k);
        } else if at + 1 < end {
            law_first_branch_decides(t, node, s, at + 1, end, levels, at + 1);
        }
    }
}

} // verus!
