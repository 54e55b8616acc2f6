//! Finding the window of a chat.
use vstd::prelude::*;
use crate::chat;
use crate::poll;
use crate::text;
use crate::tree;
use crate::tree::{
    ChildSearch, NodeInfo, NodeView, Tree, TreeAnswer, TreeQuestion, Wanted, WantedView,
};
use crate::wechat::WeChat;

verus! {

// ---------------------------------------------------------------------
// The window of a chat
// ---------------------------------------------------------------------

/// The first window that bears a chat's name inside the programs, from one
/// place to another, that bear it.
pub open spec fn window_between(
    t: Tree,
    registry: u64,
    who: Seq<char>,
    at: int,
    end: int,
) -> Option<NodeView>
    decreases end - at,
{
    if at >= end {
        None
    } else {
        match (t.child)(registry, at as i32) {
            Some(c) => if tree::fits(WantedView::Entry(who), c) {
                match tree::first_from(t, c.id, WantedView::Frame(who), 0) {
                    Some(f) => Some(f.0),
                    None => window_between(t, registry, who, at + 1, end),
                }
            } else {
                window_between(t, registry, who, at + 1, end)
            },
            None => window_between(t, registry, who, at + 1, end),
        }
    }
}

/// The window of a chat among the programs.
pub open spec fn window_in_registry(t: Tree, registry: Option<u64>, who: Seq<char>) -> Option<
    NodeView,
> {
    match registry {
        Some(r) => window_between(t, r, who, 0, (t.count)(r) as int),
        None => None,
    }
}

/// The window of a chat: among the chat program's own windows, else among all
/// programs.
pub open spec fn chat_window(t: Tree, app: u64, registry: Option<u64>, who: Seq<char>) -> Option<
    NodeView,
> {
    match tree::first_from(t, app, WantedView::ChatFrame(who), 0) {
        Some(f) => Some(f.0),
        None => window_in_registry(t, registry, who),
    }
}

/// What a search for the window of a chat looks at.
#[derive(Debug, Clone, Copy, PartialEq, Eq, Structural)]
pub enum WindowStage {
    /// The windows of the chat program.
    App,
    /// The programs.
    Registry,
    /// The windows of a program that bears the chat's name.
    Inner,
    /// Nothing any more.
    Over,
}

/// A search for the window of a chat.
#[derive(Debug, Clone)]
pub struct WindowSearch {
    pub who: String,
    pub registry: Option<u64>,
    pub stage: WindowStage,
    /// The search under way among the children of an element.
    pub inner: ChildSearch,
    /// The program to look at next, and where to stop, once that is known.
    pub at: i32,
    pub end: Option<i32>,
    pub found: Option<NodeInfo>,
}

impl WindowSearch {
    /// Whether the parts fit together.
    pub open spec fn wf(&self) -> bool {
        match self.stage {
            WindowStage::App => !self.inner.over(),
            WindowStage::Registry => self.registry is Some && (self.end is Some ==> self.at
                < self.end->0) && (self.end is None ==> self.at == 0),
            WindowStage::Inner => self.registry is Some && self.end is Some && self.at
                < self.end->0 && !self.inner.over(),
            WindowStage::Over => true,
        }
    }

    /// The question to ask next.
    pub open spec fn next(&self) -> TreeQuestion {
        match self.stage {
            WindowStage::App => self.inner.next(),
            WindowStage::Inner => self.inner.next(),
            WindowStage::Registry => match self.end {
                None => TreeQuestion::Count { node: self.registry->0 },
                Some(_) => TreeQuestion::Child { node: self.registry->0, index: self.at },
            },
            WindowStage::Over => TreeQuestion::Nothing,
        }
    }

    /// What the search will have found once all questions are answered.
    pub open spec fn outcome(&self, t: Tree) -> Option<NodeView> {
        match self.stage {
            WindowStage::App => match self.inner.outcome(t) {
                Some(f) => Some(f.0),
                None => window_in_registry(t, self.registry, self.who@),
            },
            WindowStage::Registry => match self.end {
                None => window_in_registry(t, self.registry, self.who@),
                Some(end) => window_between(
                    t,
                    self.registry->0,
                    self.who@,
                    self.at as int,
                    end as int,
                ),
            },
            WindowStage::Inner => match self.inner.outcome(t) {
                Some(f) => Some(f.0),
                None => window_between(
                    t,
                    self.registry->0,
                    self.who@,
                    self.at + 1,
                    self.end->0 as int,
                ),
            },
            WindowStage::Over => tree::node_view(self.found),
        }
    }

    /// What is left to do, the weightiest part first.
    pub open spec fn work_left(&self) -> (int, int, int, int) {
        match self.stage {
            WindowStage::App => (3, 0, self.inner.work_left().0, self.inner.work_left().1),
            WindowStage::Registry => match self.end {
                None => (2, 0, 0, 0),
                Some(end) => (1, end - self.at, 2, 0),
            },
            WindowStage::Inner => (
                1,
                self.end->0 - self.at,
                self.inner.work_left().0,
                self.inner.work_left().1,
            ),
            WindowStage::Over => (0, 0, 0, 0),
        }
    }

    /// The question to ask next.
    pub fn question(&self) -> (r: TreeQuestion)
        requires
            self.wf(),
        ensures
            r == self.next(),
            r is Nothing <==> self.stage == WindowStage::Over,
    {
        match self.stage {
            WindowStage::App => self.inner.question(),
            WindowStage::Inner => self.inner.question(),
            WindowStage::Registry => match (self.registry, self.end) {
                (Some(r), None) => TreeQuestion::Count { node: r },
                (Some(r), Some(_)) => TreeQuestion::Child { node: r, index: self.at },
                _ => TreeQuestion::Nothing,
            },
            WindowStage::Over => TreeQuestion::Nothing,
        }
    }

    /// Ends the search where all programs have been looked at.
    fn settle(&mut self)
        requires
            old(self).stage == WindowStage::Registry,
            old(self).registry is Some,
            old(self).end is Some,
        ensures
            final(self).wf(),
            forall|t: Tree| #[trigger] final(self).outcome(t) == old(self).outcome(t),
            final(self).stage == WindowStage::Over || *final(self) == *old(self),
    {
        if let Some(end) = self.end {
            if self.at >= end {
                self.found = None;
                self.stage = WindowStage::Over;
            }
        }
    }

    /// Takes an answer to the question asked. An answer of the wrong kind
    /// changes nothing.
    pub fn answer(&mut self, a: TreeAnswer)
        requires
            old(self).wf(),
        ensures
            final(self).wf(),
            !tree::suits(old(self).next(), a) ==> *final(self) == *old(self),
            tree::suits(old(self).next(), a) ==> poll::less(
                final(self).work_left(),
                old(self).work_left(),
            ),
            forall|t: Tree|
                tree::answers(t, old(self).next(), a) ==> #[trigger] final(self).outcome(t)
                    == old(self).outcome(t),
    {
        let ghost start = *self;
        match self.stage {
            WindowStage::App => {
                self.inner.answer(a);
                if let TreeQuestion::Nothing = self.inner.question() {
                    match &self.inner.found {
                        Some(f) => {
                            self.found = Some(f.0.copy());
                            self.stage = WindowStage::Over;
                        },
                        None => {
                            if self.registry.is_some() {
                                self.at = 0;
                                self.end = None;
                                self.stage = WindowStage::Registry;
                            } else {
                                self.found = None;
                                self.stage = WindowStage::Over;
                            }
                        },
                    }
                }
            },
            WindowStage::Inner => {
                self.inner.answer(a);
                if let TreeQuestion::Nothing = self.inner.question() {
                    match &self.inner.found {
                        Some(f) => {
                            self.found = Some(f.0.copy());
                            self.stage = WindowStage::Over;
                        },
                        None => {
                            self.at = self.at + 1;
                            self.stage = WindowStage::Registry;
                            self.settle();
                        },
                    }
                }
            },
            WindowStage::Registry => match (self.end, a) {
                (None, TreeAnswer::Count(n)) => {
                    self.end = Some(n);
                    self.settle();
                },
                (Some(_), TreeAnswer::Child(c)) => {
                    let entry = match &c {
                        Some(n) => if Wanted::Entry(self.who.clone()).is_met(n) {
                            Some(n.id)
                        } else {
                            None
                        },
                        None => None,
                    };
                    match entry {
                        Some(id) => {
                            self.inner = ChildSearch {
                                node: id,
                                wanted: Wanted::Frame(self.who.clone()),
                                at: 0,
                                end: None,
                                found: None,
                            };
                            self.stage = WindowStage::Inner;
                        },
                        None => {
                            self.at = self.at + 1;
                            self.settle();
                        },
                    }
                },
                _ => {},
            },
            WindowStage::Over => {},
        }
    }
}

impl WeChat {
    /// Starts a search for the window of a chat, given the chat program and the
    /// list of programs, if there is one.
    pub fn find_chat_window(&self, app: u64, registry: Option<u64>, who: &str) -> (r: WindowSearch)
        ensures
            r.wf(),
            forall|t: Tree| #[trigger] r.outcome(t) == chat_window(t, app, registry, who@),
    {
        let inner = ChildSearch {
            node: app,
            wanted: Wanted::ChatFrame(who.to_owned()),
            at: 0,
            end: None,
            found: None,
        };
        WindowSearch {
            who: who.to_owned(),
            registry,
            stage: WindowStage::App,
            inner,
            at: 0,
            end: None,
            found: None,
        }
    }
}

/// The window that an entry of the list of programs has for a chat: its first
/// frame with the chat in its name, where the entry itself names the chat and is
/// not the main window.
pub open spec fn entry_window(t: Tree, registry: u64, who: Seq<char>, i: int) -> Option<NodeView> {
    match (t.child)(registry, i as i32) {
        Some(c) => if text::occurs(c.name, who) && !chat::main_name(c.name) {
            match tree::first_from(t, c.id, WantedView::Frame(who), 0) {
                Some(f) => Some(f.0),
                None => None,
            }
        } else {
            None
        },
        None => None,
    }
}

/// A window of the program comes before all others. Otherwise the first entry
/// that has one gives it, entries without one are passed over, and where none
/// has one there is none.
pub proof fn law_window_of_a_chat(
    t: Tree,
    app: u64,
    registry: u64,
    who: Seq<char>,
    k: int,
)
    requires
        0 <= k < (t.count)(registry),
    ensures
        tree::first_from(t, app, WantedView::ChatFrame(who), 0) matches Some(f) ==> chat_window(
            t,
            app,
            Some(registry),
            who,
        ) == Some(f.0) && chat_window(t, app, None, who) == Some(f.0),
        tree::first_from(t, app, WantedView::ChatFrame(who), 0) is None ==> chat_window(
            t,
            app,
            None,
            who,
        ) is None,
        tree::first_from(t, app, WantedView::ChatFrame(who), 0) is None && entry_window(
            t,
            registry,
            who,
            k,
        ) is Some && (forall|j: int|
            0 <= j < k ==> (#[trigger] entry_window(t, registry, who, j)) is None) ==> chat_window(
            t,
            app,
            Some(registry),
            who,
        ) == entry_window(t, registry, who, k),
        tree::first_from(t, app, WantedView::ChatFrame(who), 0) is None && (forall|j: int|
            0 <= j < (t.count)(registry) ==> (#[trigger] entry_window(t, registry, who, j)) is None)
            ==> chat_window(t, app, Some(registry), who) is None,
{
    lemma_first_entry(t, registry, who, 0, (t.count)(registry) as int);
}

proof fn lemma_first_entry(t: Tree, registry: u64, who: Seq<char>, at: int, end: int)
    ensures
        match window_between(t, registry, who, at, end) {
            Some(n) => exists|k: int|
                at <= k < end && #[trigger] entry_window(t, registry, who, k) == Some(n)
                    && forall|j: int|
                    at <= j < k ==> (#[trigger] entry_window(t, registry, who, j)) is None,
            None => forall|j: int|
                at <= j < end ==> (#[trigger] entry_window(t, registry, who, j)) is None,
        },
    decreases end - at,
{
    if at < end {
        if entry_window(t, registry, who, at) is None {
            lemma_first_entry(t, registry, who, at + 1, end);
            assert(window_between(t, registry, who, at, end) == window_between(
                t,
                registry,
                who,
                at + 1,
                end,
            ));
        } else {
            assert(window_between(t, registry, who, at, end) == entry_window(
                t,
                registry,
                who,
                at,
            ));
        }
    }
}

} // verus!
