//! What is done to the chat program's windows, step by step.
//!
//! A flow is at a step. Whoever runs it performs the step, waits if a pause is
//! due, and tells how it went; the flow says which step comes next.
use vstd::prelude::*;
use crate::config;
use crate::replies::{AddReply, ChatReply, SendReply};
use crate::text;
use crate::wechat::WeChat;

verus! {

// ---------------------------------------------------------------------
// How a step went
// ---------------------------------------------------------------------

/// Where an element stands on the screen.
#[derive(Debug, Clone, Copy)]
pub struct Rect {
    pub x: i32,
    pub y: i32,
    pub w: i32,
    pub h: i32,
}

/// How a step went.
#[derive(Debug, Clone, Copy)]
pub enum UiEvent {
    /// It was carried out.
    Done,
    /// It failed.
    Failed,
    /// It gave yes or no.
    Flag(bool),
    /// It gave an element, or none.
    Node(Option<u64>),
    /// It gave a window and its place among the others, or none.
    Frame(Option<(u64, i32)>),
    /// It gave a place on the screen, or none.
    Point(Option<(i32, i32)>),
    /// It gave where an element stands, or nothing.
    Place(Option<Rect>),
}

// ---------------------------------------------------------------------
// Finding the chat program
// ---------------------------------------------------------------------

/// A step on the way to the chat program.
#[derive(Debug, Clone, Copy)]
pub enum AppStep {
    /// Look through the list of programs.
    Scan,
    /// Connect anew to the list of programs.
    Reconnect,
    /// Look once more.
    Rescan,
    Done(Option<u64>),
}

/// The step that follows.
pub open spec fn app_next(s: AppStep, e: UiEvent) -> AppStep {
    match (s, e) {
        (AppStep::Scan, UiEvent::Node(Some(app))) => AppStep::Done(Some(app)),
        (AppStep::Scan, UiEvent::Node(None)) => AppStep::Reconnect,
        (AppStep::Reconnect, UiEvent::Flag(true)) => AppStep::Rescan,
        (AppStep::Reconnect, UiEvent::Flag(false)) => AppStep::Done(None),
        (AppStep::Rescan, UiEvent::Node(app)) => AppStep::Done(app),
        _ => s,
    }
}

impl AppStep {
    /// The step that follows.
    pub fn next(self, e: UiEvent) -> (r: AppStep)
        ensures
            r == app_next(self, e),
    {
        match (self, e) {
            (AppStep::Scan, UiEvent::Node(Some(app))) => AppStep::Done(Some(app)),
            (AppStep::Scan, UiEvent::Node(None)) => AppStep::Reconnect,
            (AppStep::Reconnect, UiEvent::Flag(ok)) => if ok {
                AppStep::Rescan
            } else {
                AppStep::Done(None)
            },
            (AppStep::Rescan, UiEvent::Node(app)) => AppStep::Done(app),
            _ => self,
        }
    }
}

impl WeChat {
    /// The first step on the way to the chat program.
    pub fn find_app(&self) -> (r: AppStep)
        ensures
            r == AppStep::Scan,
    {
        AppStep::Scan
    }
}

// ---------------------------------------------------------------------
// Bringing the main window to the front
// ---------------------------------------------------------------------

/// The titles that the main window may have, in the order they are tried.
pub open spec fn main_titles() -> Seq<Seq<char>> {
    seq!["微信"@, "WeChat"@, "Weixin"@]
}

/// A title that the main window may have.
pub fn main_title(i: usize) -> (r: &'static str)
    requires
        i < 3,
    ensures
        r@ == main_titles()[i as int],
{
    if i == 0 {
        "微信"
    } else if i == 1 {
        "WeChat"
    } else {
        "Weixin"
    }
}

/// A step on the way to the main window.
#[derive(Debug, Clone, Copy)]
pub enum FocusStep {
    /// Bring the window with the title of this number to the front.
    Activate(usize),
    /// Find the chat program.
    FindApp,
    /// Find its main window, from a place on.
    FindFrame { app: u64, from: i32 },
    /// Find out where the window stands.
    PlaceOf { app: u64, node: u64, index: i32 },
    /// Click on its title bar.
    Click { x: i32, y: i32 },
    /// Over; whether the main window is in front.
    Done(bool),
}

/// Half a number, rounded towards zero.
pub open spec fn half(n: int) -> int {
    if n >= 0 {
        n / 2
    } else {
        -((-n) / 2)
    }
}

/// A number, or zero where it is below.
pub open spec fn at_least_zero(n: int) -> int {
    if n < 0 {
        0
    } else {
        n
    }
}

/// The place of a window's title bar.
pub open spec fn title_bar(r: Rect) -> (int, int) {
    (at_least_zero(r.x + half(r.w as int)), at_least_zero(r.y + 15))
}

/// Whether the place of a window's title bar can be told.
pub open spec fn on_screen(r: Rect) -> bool {
    i32::MIN <= r.x + half(r.w as int) <= i32::MAX && r.y + 15 <= i32::MAX
}

/// Whether a step can be followed by another for an event.
pub open spec fn focus_ready(s: FocusStep, e: UiEvent) -> bool {
    &&& e matches UiEvent::Place(Some(r)) ==> on_screen(r)
    &&& s matches FocusStep::PlaceOf { index, .. } ==> index < i32::MAX
    &&& s matches FocusStep::Activate(i) ==> i < 3
}

/// The step that follows.
pub open spec fn focus_next(s: FocusStep, e: UiEvent) -> FocusStep {
    match (s, e) {
        (FocusStep::Activate(_), UiEvent::Flag(true)) => FocusStep::Done(true),
        (FocusStep::Activate(i), UiEvent::Flag(false)) => title_failed(i),
        (FocusStep::Activate(i), UiEvent::Failed) => title_failed(i),
        (FocusStep::FindApp, UiEvent::Node(Some(app))) => FocusStep::FindFrame { app, from: 0 },
        (FocusStep::FindApp, UiEvent::Node(None)) => FocusStep::Done(false),
        (FocusStep::FindFrame { app, .. }, UiEvent::Frame(Some((node, index)))) => {
            FocusStep::PlaceOf { app, node, index }
        },
        (FocusStep::FindFrame { .. }, UiEvent::Frame(None)) => FocusStep::Done(false),
        (FocusStep::PlaceOf { .. }, UiEvent::Place(Some(r))) => FocusStep::Click {
            x: title_bar(r).0 as i32,
            y: title_bar(r).1 as i32,
        },
        (FocusStep::PlaceOf { app, index, .. }, UiEvent::Place(None)) => FocusStep::FindFrame {
            app,
            from: (index + 1) as i32,
        },
        (FocusStep::Click { .. }, UiEvent::Done) => FocusStep::Done(true),
        (FocusStep::Click { .. }, UiEvent::Failed) => FocusStep::Done(true),
        _ => s,
    }
}

/// The step after a title under which no window could be activated.
pub open spec fn title_failed(i: usize) -> FocusStep {
    if i + 1 < 3 {
        FocusStep::Activate((i + 1) as usize)
    } else {
        FocusStep::FindApp
    }
}

/// How long to wait after a step, in milliseconds.
pub open spec fn focus_wait(s: FocusStep, e: UiEvent) -> u64 {
    match (s, e) {
        (FocusStep::Activate(_), UiEvent::Flag(true)) => 300,
        (FocusStep::Click { .. }, _) => 300,
        _ => 0,
    }
}

/// A number, or zero where it is below.
fn not_below_zero(n: i32) -> (r: i32)
    ensures
        r == at_least_zero(n as int),
{
    if n < 0 {
        0
    } else {
        n
    }
}

/// The place of a window's title bar.
pub fn title_bar_of(r: Rect) -> (p: (i32, i32))
    requires
        on_screen(r),
    ensures
        (p.0 as int, p.1 as int) == title_bar(r),
{
    let w: i64 = r.w as i64;
    let h: i64 = if w >= 0 {
        w / 2
    } else {
        -((-w) / 2)
    };
    let x: i32 = (r.x as i64 + h) as i32;
    (not_below_zero(x), not_below_zero(r.y + 15))
}

impl FocusStep {
    /// The first step.
    pub fn start() -> (r: FocusStep)
        ensures
            r == FocusStep::Activate(0),
    {
        FocusStep::Activate(0)
    }

    /// The step that follows.
    pub fn next(self, e: UiEvent) -> (r: FocusStep)
        requires
            focus_ready(self, e),
        ensures
            r == focus_next(self, e),
    {
        match (self, e) {
            (FocusStep::Activate(i), UiEvent::Flag(ok)) => if ok {
                FocusStep::Done(true)
            } else if i + 1 < 3 {
                FocusStep::Activate(i + 1)
            } else {
                FocusStep::FindApp
            },
            (FocusStep::Activate(i), UiEvent::Failed) => if i + 1 < 3 {
                FocusStep::Activate(i + 1)
            } else {
                FocusStep::FindApp
            },
            (FocusStep::FindApp, UiEvent::Node(Some(app))) => FocusStep::FindFrame { app, from: 0 },
            (FocusStep::FindApp, UiEvent::Node(None)) => FocusStep::Done(false),
            (FocusStep::FindFrame { app, .. }, UiEvent::Frame(Some((node, index)))) => {
                FocusStep::PlaceOf { app, node, index }
            },
            (FocusStep::FindFrame { .. }, UiEvent::Frame(None)) => FocusStep::Done(false),
            (FocusStep::PlaceOf { .. }, UiEvent::Place(Some(r))) => {
                let p = title_bar_of(r);
                FocusStep::Click { x: p.0, y: p.1 }
            },
            (FocusStep::PlaceOf { app, index, .. }, UiEvent::Place(None)) => {
                FocusStep::FindFrame { app, from: index + 1 }
            },
            (FocusStep::Click { .. }, UiEvent::Done) => FocusStep::Done(true),
            (FocusStep::Click { .. }, UiEvent::Failed) => FocusStep::Done(true),
            _ => self,
        }
    }

    /// How long to wait after a step, in milliseconds.
    pub fn pause(self, e: UiEvent) -> (r: u64)
        ensures
            r == focus_wait(self, e),
    {
        match (self, e) {
            (FocusStep::Activate(_), UiEvent::Flag(ok)) => if ok {
                300
            } else {
                0
            },
            (FocusStep::Click { .. }, _) => 300,
            _ => 0,
        }
    }
}

// ---------------------------------------------------------------------
// Going to a chat
// ---------------------------------------------------------------------

/// How going to a chat ends.
#[derive(Debug, Clone, Copy, PartialEq, Eq, Structural)]
pub enum ChatEnd {
    /// The main window shows the chat already.
    Already,
    /// The chat was picked from the list.
    Listed,
    /// The chat was found by the search box.
    Searched,
    /// The search box shows no such chat.
    Absent,
    /// The chat program was not found.
    NoApp,
    /// A click or a key could not be given.
    Failed,
}

/// A step on the way to a chat.
#[derive(Debug, Clone, Copy)]
pub enum ChatStep {
    /// Bring the main window to the front.
    Focus,
    /// Find the chat program.
    FindApp,
    /// Find the list of sessions.
    FindList { app: u64 },
    /// Find the chat in the list.
    FindSession { app: u64, list: u64 },
    /// Find the middle of its entry.
    CenterOf { app: u64, item: u64 },
    /// Click on it.
    Click { x: i32, y: i32 },
    /// Open the search box.
    OpenSearch { app: u64 },
    /// Select what may stand in it.
    SelectAll { app: u64 },
    /// Paste the chat's name.
    PasteName { app: u64 },
    /// Take the first result.
    Enter { app: u64 },
    /// Close the search box.
    Escape { app: u64 },
    /// Find the list of messages.
    FindMessages { app: u64 },
    Done(ChatEnd),
}

/// The first step towards a chat: none where the main window shows it already.
pub open spec fn chat_first(current: Option<Seq<char>>, who: Seq<char>) -> ChatStep {
    if current == Some(who) {
        ChatStep::Done(ChatEnd::Already)
    } else {
        ChatStep::Focus
    }
}

/// The step that follows.
pub open spec fn chat_next(s: ChatStep, e: UiEvent) -> ChatStep {
    match (s, e) {
        (ChatStep::Focus, _) => ChatStep::FindApp,
        (ChatStep::FindApp, UiEvent::Node(Some(app))) => ChatStep::FindList { app },
        (ChatStep::FindApp, UiEvent::Node(None)) => ChatStep::Done(ChatEnd::NoApp),
        (ChatStep::FindList { app }, UiEvent::Node(Some(list))) => ChatStep::FindSession {
            app,
            list,
        },
        (ChatStep::FindList { app }, UiEvent::Node(None)) => ChatStep::OpenSearch { app },
        (ChatStep::FindSession { app, .. }, UiEvent::Node(Some(item))) => ChatStep::CenterOf {
            app,
            item,
        },
        (ChatStep::FindSession { app, .. }, UiEvent::Node(None)) => ChatStep::OpenSearch { app },
        (ChatStep::CenterOf { .. }, UiEvent::Point(Some((x, y)))) => ChatStep::Click { x, y },
        (ChatStep::CenterOf { app, .. }, UiEvent::Point(None)) => ChatStep::OpenSearch { app },
        (ChatStep::Click { .. }, UiEvent::Done) => ChatStep::Done(ChatEnd::Listed),
        (ChatStep::OpenSearch { app }, UiEvent::Done) => ChatStep::SelectAll { app },
        (ChatStep::SelectAll { app }, UiEvent::Done) => ChatStep::PasteName { app },
        (ChatStep::PasteName { app }, UiEvent::Done) => ChatStep::Enter { app },
        (ChatStep::Enter { app }, UiEvent::Done) => ChatStep::Escape { app },
        (ChatStep::Escape { app }, UiEvent::Done) => ChatStep::FindMessages { app },
        (ChatStep::FindMessages { .. }, UiEvent::Node(Some(_))) => ChatStep::Done(
            ChatEnd::Searched,
        ),
        (ChatStep::FindMessages { .. }, UiEvent::Node(None)) => ChatStep::Done(ChatEnd::Absent),
        (ChatStep::Click { .. }, UiEvent::Failed) => ChatStep::Done(ChatEnd::Failed),
        (ChatStep::OpenSearch { .. }, UiEvent::Failed) => ChatStep::Done(ChatEnd::Failed),
        (ChatStep::SelectAll { .. }, UiEvent::Failed) => ChatStep::Done(ChatEnd::Failed),
        (ChatStep::PasteName { .. }, UiEvent::Failed) => ChatStep::Done(ChatEnd::Failed),
        (ChatStep::Enter { .. }, UiEvent::Failed) => ChatStep::Done(ChatEnd::Failed),
        (ChatStep::Escape { .. }, UiEvent::Failed) => ChatStep::Done(ChatEnd::Failed),
        _ => s,
    }
}

/// How long to wait after a step, in milliseconds: not at all where it failed.
pub open spec fn chat_wait(s: ChatStep, e: UiEvent) -> u64 {
    match (s, e) {
        (ChatStep::Click { .. }, UiEvent::Done) => 500,
        (ChatStep::OpenSearch { .. }, UiEvent::Done) => 500,
        (ChatStep::SelectAll { .. }, UiEvent::Done) => 100,
        (ChatStep::PasteName { .. }, UiEvent::Done) => 1500,
        (ChatStep::Enter { .. }, UiEvent::Done) => 800,
        (ChatStep::Escape { .. }, UiEvent::Done) => 500,
        _ => 0,
    }
}

/// What the main window is known to show once going to a chat has ended. The
/// number of a group is not kept, only a name that is shown; what was shown
/// before is forgotten all the same.
pub open spec fn chat_after(
    current: Option<Seq<char>>,
    who: Seq<char>,
    end: ChatEnd,
) -> Option<Seq<char>> {
    match end {
        ChatEnd::Listed => Some(who),
        ChatEnd::Searched => if text::occurs(who, "@chatroom"@) {
            None
        } else {
            Some(who)
        },
        ChatEnd::Absent => None,
        _ => current,
    }
}

/// What the main window is known to show after a step: a change is noted where
/// the step ends the way to the chat.
pub open spec fn shown_after(
    current: Option<Seq<char>>,
    who: Seq<char>,
    s: ChatStep,
    e: UiEvent,
) -> Option<Seq<char>> {
    match (s, chat_next(s, e)) {
        (ChatStep::Done(_), _) => current,
        (_, ChatStep::Done(end)) => chat_after(current, who, end),
        _ => current,
    }
}

/// Whether going to a chat has led there.
pub open spec fn chat_entered(end: ChatEnd) -> bool {
    end == ChatEnd::Already || end == ChatEnd::Listed || end == ChatEnd::Searched
}

impl ChatStep {
    /// The step that follows.
    pub fn next(self, e: UiEvent) -> (r: ChatStep)
        ensures
            r == chat_next(self, e),
    {
        match (self, e) {
            (ChatStep::Focus, _) => ChatStep::FindApp,
            (ChatStep::FindApp, UiEvent::Node(Some(app))) => ChatStep::FindList { app },
            (ChatStep::FindApp, UiEvent::Node(None)) => ChatStep::Done(ChatEnd::NoApp),
            (ChatStep::FindList { app }, UiEvent::Node(Some(list))) => ChatStep::FindSession {
                app,
                list,
            },
            (ChatStep::FindList { app }, UiEvent::Node(None)) => ChatStep::OpenSearch { app },
            (ChatStep::FindSession { app, .. }, UiEvent::Node(Some(item))) => {
                ChatStep::CenterOf { app, item }
            },
            (ChatStep::FindSession { app, .. }, UiEvent::Node(None)) => {
                ChatStep::OpenSearch { app }
            },
            (ChatStep::CenterOf { .. }, UiEvent::Point(Some((x, y)))) => ChatStep::Click { x, y },
            (ChatStep::CenterOf { app, .. }, UiEvent::Point(None)) => ChatStep::OpenSearch { app },
            (ChatStep::Click { .. }, UiEvent::Done) => ChatStep::Done(ChatEnd::Listed),
            (ChatStep::OpenSearch { app }, UiEvent::Done) => ChatStep::SelectAll { app },
            (ChatStep::SelectAll { app }, UiEvent::Done) => ChatStep::PasteName { app },
            (ChatStep::PasteName { app }, UiEvent::Done) => ChatStep::Enter { app },
            (ChatStep::Enter { app }, UiEvent::Done) => ChatStep::Escape { app },
            (ChatStep::Escape { app }, UiEvent::Done) => ChatStep::FindMessages { app },
            (ChatStep::FindMessages { .. }, UiEvent::Node(Some(_))) => ChatStep::Done(
                ChatEnd::Searched,
            ),
            (ChatStep::FindMessages { .. }, UiEvent::Node(None)) => ChatStep::Done(
                ChatEnd::Absent,
            ),
            (ChatStep::Click { .. }, UiEvent::Failed) => ChatStep::Done(ChatEnd::Failed),
            (ChatStep::OpenSearch { .. }, UiEvent::Failed) => ChatStep::Done(ChatEnd::Failed),
            (ChatStep::SelectAll { .. }, UiEvent::Failed) => ChatStep::Done(ChatEnd::Failed),
            (ChatStep::PasteName { .. }, UiEvent::Failed) => ChatStep::Done(ChatEnd::Failed),
            (ChatStep::Enter { .. }, UiEvent::Failed) => ChatStep::Done(ChatEnd::Failed),
            (ChatStep::Escape { .. }, UiEvent::Failed) => ChatStep::Done(ChatEnd::Failed),
            _ => self,
        }
    }

    /// How long to wait after a step, in milliseconds.
    pub fn pause(self, e: UiEvent) -> (r: u64)
        ensures
            r == chat_wait(self, e),
    {
        match (self, e) {
            (ChatStep::Click { .. }, UiEvent::Done) => 500,
            (ChatStep::OpenSearch { .. }, UiEvent::Done) => 500,
            (ChatStep::SelectAll { .. }, UiEvent::Done) => 100,
            (ChatStep::PasteName { .. }, UiEvent::Done) => 1500,
            (ChatStep::Enter { .. }, UiEvent::Done) => 800,
            (ChatStep::Escape { .. }, UiEvent::Done) => 500,
            _ => 0,
        }
    }
}

impl ChatEnd {
    /// Whether going to a chat has led there.
    pub fn entered(self) -> (r: bool)
        ensures
            r == chat_entered(self),
    {
        match self {
            ChatEnd::Already => true,
            ChatEnd::Listed => true,
            ChatEnd::Searched => true,
            _ => false,
        }
    }
}

impl WeChat {
    /// The first step towards a chat.
    pub fn chat_with(&self, who: &str) -> (r: ChatStep)
        ensures
            r == chat_first(text::opt_view(self.current_chat), who@),
    {
        match &self.current_chat {
            Some(name) => if text::same(name.as_str(), who) {
                ChatStep::Done(ChatEnd::Already)
            } else {
                ChatStep::Focus
            },
            None => ChatStep::Focus,
        }
    }

    /// Notes what the main window shows once going to a chat has ended.
    pub fn end_chat(&mut self, who: &str, end: ChatEnd)
        ensures
            text::opt_view(final(self).current_chat) == chat_after(
                text::opt_view(old(self).current_chat),
                who@,
                end,
            ),
            old(self).wf() ==> final(self).wf(),
            final(self).seen_msg_ids == old(self).seen_msg_ids,
            final(self).listening == old(self).listening,
            final(self).pending == old(self).pending,
    {
        match end {
            ChatEnd::Listed => {
                self.current_chat = Some(who.to_owned());
            },
            ChatEnd::Searched => {
                self.current_chat = if text::contains(who, "@chatroom") {
                    None
                } else {
                    Some(who.to_owned())
                };
            },
            ChatEnd::Absent => {
                self.current_chat = None;
            },
            _ => {},
        }
    }
}

impl WeChat {
    /// The step that follows on the way to a chat. Where the way ends, what the
    /// main window shows is noted.
    pub fn chat_step(&mut self, who: &str, s: ChatStep, e: UiEvent) -> (r: ChatStep)
        ensures
            r == chat_next(s, e),
            text::opt_view(final(self).current_chat) == shown_after(
                text::opt_view(old(self).current_chat),
                who@,
                s,
                e,
            ),
            old(self).wf() ==> final(self).wf(),
            final(self).seen_msg_ids == old(self).seen_msg_ids,
            final(self).listening == old(self).listening,
            final(self).pending == old(self).pending,
    {
        let r = s.next(e);
        match (s, r) {
            (ChatStep::Done(_), _) => {},
            (_, ChatStep::Done(end)) => {
                self.end_chat(who, end);
            },
            _ => {},
        }
        r
    }
}

/// What is told of an attempt to go to a chat; a click or a key that could not
/// be given tells for itself.
pub fn chat_reply(end: ChatEnd, who: &str) -> (r: Option<ChatReply>)
    ensures
        chat_entered(end) ==> (r matches Some(ChatReply::Entered(name)) && name@ == who@),
        end == ChatEnd::Absent ==> r matches Some(ChatReply::NotFound),
        end == ChatEnd::NoApp ==> (r matches Some(ChatReply::Failed(e)) && e@
            == "找不到微信应用"@),
        end == ChatEnd::Failed ==> r is None,
        end == ChatEnd::Already || end == ChatEnd::Listed || end == ChatEnd::Searched <==> r
            matches Some(ChatReply::Entered(_)),
{
    match end {
        ChatEnd::Absent => Some(ChatReply::NotFound),
        ChatEnd::NoApp => Some(ChatReply::Failed("找不到微信应用".to_owned())),
        ChatEnd::Failed => None,
        _ => Some(ChatReply::Entered(who.to_owned())),
    }
}

// ---------------------------------------------------------------------
// Listening to a chat
// ---------------------------------------------------------------------

/// How often a new window is looked for.
pub const WINDOW_TRIES: u8 = 3;

/// How an attempt to listen to a chat ends.
#[derive(Debug, Clone, Copy, PartialEq, Eq, Structural)]
pub enum AddEnd {
    /// The chat has a window of its own.
    Listening,
    /// No such window came up.
    NoWindow,
    /// The chat program was not found.
    NoApp,
    /// A click or a key could not be given.
    Failed,
}

/// A step on the way to a chat's own window.
#[derive(Debug, Clone, Copy)]
pub enum AddStep {
    /// Find the chat program.
    FindApp { known: bool },
    /// Find out whether the window known for the chat is still there.
    IsAlive { app: u64 },
    /// Forget the window known for the chat.
    Forget { app: u64 },
    /// Look for a window not known yet.
    FindExisting { app: u64 },
    /// Bring the main window to the front.
    Focus { app: u64 },
    /// Go to the chat.
    GoTo { app: u64 },
    /// Find the list of sessions.
    FindList { app: u64 },
    /// Find the chat in the list.
    FindSession { app: u64, list: u64 },
    /// Find the middle of its entry.
    CenterOf { app: u64, item: u64 },
    /// Open its window.
    DoubleClick { app: u64, x: i32, y: i32 },
    /// Forget what the main window shows.
    ForgetChat { app: u64 },
    /// Give the window time to come up.
    Wait { app: u64, tries: u8 },
    /// Look for the new window.
    FindNew { app: u64, tries: u8 },
    /// Take the window over; one that is new counts as read.
    Adopt { window: u64, mark_read: bool },
    Done(AddEnd),
}

/// The step that follows.
pub open spec fn add_next(s: AddStep, e: UiEvent) -> AddStep {
    match (s, e) {
        (AddStep::FindApp { known }, UiEvent::Node(Some(app))) => if known {
            AddStep::IsAlive { app }
        } else {
            AddStep::FindExisting { app }
        },
        (AddStep::FindApp { .. }, UiEvent::Node(None)) => AddStep::Done(AddEnd::NoApp),
        (AddStep::IsAlive { .. }, UiEvent::Flag(true)) => AddStep::Done(AddEnd::Listening),
        (AddStep::IsAlive { app }, UiEvent::Flag(false)) => AddStep::Forget { app },
        (AddStep::Forget { app }, UiEvent::Done) => AddStep::FindExisting { app },
        (AddStep::FindExisting { .. }, UiEvent::Node(Some(window))) => AddStep::Adopt {
            window,
            mark_read: false,
        },
        (AddStep::FindExisting { app }, UiEvent::Node(None)) => AddStep::Focus { app },
        (AddStep::Focus { app }, _) => AddStep::GoTo { app },
        (AddStep::GoTo { app }, UiEvent::Flag(_)) => AddStep::FindList { app },
        (AddStep::GoTo { .. }, UiEvent::Failed) => AddStep::Done(AddEnd::Failed),
        (AddStep::FindList { app }, UiEvent::Node(Some(list))) => AddStep::FindSession {
            app,
            list,
        },
        (AddStep::FindList { app }, UiEvent::Node(None)) => AddStep::Wait { app, tries: 0 },
        (AddStep::FindSession { app, .. }, UiEvent::Node(Some(item))) => AddStep::CenterOf {
            app,
            item,
        },
        (AddStep::FindSession { app, .. }, UiEvent::Node(None)) => AddStep::Wait { app, tries: 0 },
        (AddStep::CenterOf { app, .. }, UiEvent::Point(Some((x, y)))) => AddStep::DoubleClick {
            app,
            x,
            y,
        },
        (AddStep::CenterOf { app, .. }, UiEvent::Point(None)) => AddStep::Wait { app, tries: 0 },
        (AddStep::DoubleClick { app, .. }, UiEvent::Done) => AddStep::ForgetChat { app },
        (AddStep::DoubleClick { .. }, UiEvent::Failed) => AddStep::Done(AddEnd::Failed),
        (AddStep::ForgetChat { app }, UiEvent::Done) => AddStep::Wait { app, tries: 0 },
        (AddStep::Wait { app, tries }, UiEvent::Done) => AddStep::FindNew { app, tries },
        (AddStep::FindNew { .. }, UiEvent::Node(Some(window))) => AddStep::Adopt {
            window,
            mark_read: true,
        },
        (AddStep::FindNew { app, tries }, UiEvent::Node(None)) => if tries + 1 < WINDOW_TRIES {
            AddStep::Wait { app, tries: (tries + 1) as u8 }
        } else {
            AddStep::Done(AddEnd::NoWindow)
        },
        (AddStep::Adopt { .. }, UiEvent::Done) => AddStep::Done(AddEnd::Listening),
        _ => s,
    }
}

/// The chats with a window of their own after a step: one is gone once its
/// window was forgotten, and there once a window was taken over.
pub open spec fn listening_after(
    list: Seq<Seq<char>>,
    who: Seq<char>,
    s: AddStep,
    e: UiEvent,
) -> Seq<Seq<char>> {
    match (s, e) {
        (AddStep::Forget { .. }, UiEvent::Done) => config::without(list, seq![who]),
        (AddStep::Adopt { .. }, UiEvent::Done) => config::with_name(list, who),
        _ => list,
    }
}

/// What the main window is known to show after a step on the way to a chat's
/// own window.
pub open spec fn shown_after_add(
    current: Option<Seq<char>>,
    s: AddStep,
    e: UiEvent,
) -> Option<Seq<char>> {
    match (s, e) {
        (AddStep::ForgetChat { .. }, UiEvent::Done) => None,
        _ => current,
    }
}

/// How long to wait after a step, in milliseconds: not at all where it failed.
pub open spec fn add_wait(s: AddStep, e: UiEvent) -> u64 {
    match (s, e) {
        (AddStep::DoubleClick { .. }, UiEvent::Done) => 1000,
        (AddStep::Wait { .. }, UiEvent::Done) => 1500,
        _ => 0,
    }
}

impl AddStep {
    /// The step that follows.
    pub fn next(self, e: UiEvent) -> (r: AddStep)
        ensures
            r == add_next(self, e),
    {
        match (self, e) {
            (AddStep::FindApp { known }, UiEvent::Node(Some(app))) => if known {
                AddStep::IsAlive { app }
            } else {
                AddStep::FindExisting { app }
            },
            (AddStep::FindApp { .. }, UiEvent::Node(None)) => AddStep::Done(AddEnd::NoApp),
            (AddStep::IsAlive { app }, UiEvent::Flag(alive)) => if alive {
                AddStep::Done(AddEnd::Listening)
            } else {
                AddStep::Forget { app }
            },
            (AddStep::Forget { app }, UiEvent::Done) => AddStep::FindExisting { app },
            (AddStep::FindExisting { .. }, UiEvent::Node(Some(window))) => AddStep::Adopt {
                window,
                mark_read: false,
            },
            (AddStep::FindExisting { app }, UiEvent::Node(None)) => AddStep::Focus { app },
            (AddStep::Focus { app }, _) => AddStep::GoTo { app },
            (AddStep::GoTo { app }, UiEvent::Flag(_)) => AddStep::FindList { app },
            (AddStep::GoTo { .. }, UiEvent::Failed) => AddStep::Done(AddEnd::Failed),
            (AddStep::FindList { app }, UiEvent::Node(Some(list))) => AddStep::FindSession {
                app,
                list,
            },
            (AddStep::FindList { app }, UiEvent::Node(None)) => AddStep::Wait { app, tries: 0 },
            (AddStep::FindSession { app, .. }, UiEvent::Node(Some(item))) => AddStep::CenterOf {
                app,
                item,
            },
            (AddStep::FindSession { app, .. }, UiEvent::Node(None)) => AddStep::Wait {
                app,
                tries: 0,
            },
            (AddStep::CenterOf { app, .. }, UiEvent::Point(Some((x, y)))) => {
                AddStep::DoubleClick { app, x, y }
            },
            (AddStep::CenterOf { app, .. }, UiEvent::Point(None)) => AddStep::Wait {
                app,
                tries: 0,
            },
            (AddStep::DoubleClick { app, .. }, UiEvent::Done) => AddStep::ForgetChat { app },
            (AddStep::DoubleClick { .. }, UiEvent::Failed) => AddStep::Done(AddEnd::Failed),
            (AddStep::ForgetChat { app }, UiEvent::Done) => AddStep::Wait { app, tries: 0 },
            (AddStep::Wait { app, tries }, UiEvent::Done) => AddStep::FindNew { app, tries },
            (AddStep::FindNew { .. }, UiEvent::Node(Some(window))) => AddStep::Adopt {
                window,
                mark_read: true,
            },
            (AddStep::FindNew { app, tries }, UiEvent::Node(None)) => if tries
                < WINDOW_TRIES - 1 {
                AddStep::Wait { app, tries: tries + 1 }
            } else {
                AddStep::Done(AddEnd::NoWindow)
            },
            (AddStep::Adopt { .. }, UiEvent::Done) => AddStep::Done(AddEnd::Listening),
            _ => self,
        }
    }

    /// How long to wait after a step, in milliseconds.
    pub fn pause(self, e: UiEvent) -> (r: u64)
        ensures
            r == add_wait(self, e),
    {
        match (self, e) {
            (AddStep::DoubleClick { .. }, UiEvent::Done) => 1000,
            (AddStep::Wait { .. }, UiEvent::Done) => 1500,
            _ => 0,
        }
    }
}

impl WeChat {
    /// The first step towards a chat's own window.
    pub fn add_listen(&self, who: &str) -> (r: AddStep)
        ensures
            r == (AddStep::FindApp { known: text::views(self.listening@).contains(who@) }),
    {
        AddStep::FindApp { known: self.is_listening(who) }
    }

    /// The step that follows on the way to a chat's own window. What the step
    /// has done to that window, and to what the main window shows, is noted.
    pub fn add_step(&mut self, who: &str, s: AddStep, e: UiEvent) -> (r: AddStep)
        ensures
            r == add_next(s, e),
            text::views(final(self).listening@) == listening_after(
                text::views(old(self).listening@),
                who@,
                s,
                e,
            ),
            text::opt_view(final(self).current_chat) == shown_after_add(
                text::opt_view(old(self).current_chat),
                s,
                e,
            ),
            old(self).wf() ==> final(self).wf(),
            final(self).seen_msg_ids == old(self).seen_msg_ids,
            final(self).pending == old(self).pending,
    {
        match (s, e) {
            (AddStep::Forget { .. }, UiEvent::Done) => {
                self.unregister(who);
            },
            (AddStep::Adopt { .. }, UiEvent::Done) => {
                self.register(who);
            },
            (AddStep::ForgetChat { .. }, UiEvent::Done) => {
                self.forget_chat();
            },
            _ => {},
        }
        s.next(e)
    }
}

/// What is told of an attempt to listen to a chat; a click or a key that could
/// not be given tells for itself.
pub fn add_reply(end: AddEnd) -> (r: Option<AddReply>)
    ensures
        match end {
            AddEnd::Listening => r matches Some(AddReply::Added),
            AddEnd::NoWindow => r matches Some(AddReply::NotAdded),
            AddEnd::NoApp => r matches Some(AddReply::Failed(e)) && e@ == "找不到微信应用"@,
            AddEnd::Failed => r is None,
        },
{
    match end {
        AddEnd::Listening => Some(AddReply::Added),
        AddEnd::NoWindow => Some(AddReply::NotAdded),
        AddEnd::NoApp => Some(AddReply::Failed("找不到微信应用".to_owned())),
        AddEnd::Failed => None,
    }
}

// ---------------------------------------------------------------------
// Sending
// ---------------------------------------------------------------------

/// What is sent.
#[derive(Debug, Clone, Copy, PartialEq, Eq, Structural)]
pub enum Cargo {
    /// A text; whether the window is to be asked if it arrived.
    Text { verify: bool },
    Picture,
}

/// How an attempt to send ends.
#[derive(Debug, Clone, Copy, PartialEq, Eq, Structural)]
pub enum SendEnd {
    /// The chat's own window took it over.
    Delegated,
    /// It was sent; whether the window shows it.
    Sent { verified: bool },
    /// The chat was not found.
    NoChat,
    /// The chat program was not found.
    NoApp,
    /// A key could not be given.
    Failed,
}

/// A step on the way to a message sent.
#[derive(Debug, Clone, Copy)]
pub enum SendStep {
    /// Find out whether the chat's own window is still there.
    IsAlive,
    /// Let it send.
    InWindow,
    /// Forget it, and what the main window shows.
    Forget,
    /// Forget what the main window shows.
    ForgetChat,
    /// Find the chat program.
    FindApp,
    /// Go to the chat.
    GoTo { app: u64 },
    /// Paste the text or the picture.
    Paste { app: u64 },
    /// Send it off.
    PressEnter { app: u64 },
    /// Ask the window whether the text arrived.
    Verify { app: u64 },
    Done(SendEnd),
}

/// The first step without a window of the chat's own: a picture goes to the
/// chat anew in any case.
pub open spec fn send_in_main(cargo: Cargo) -> SendStep {
    match cargo {
        Cargo::Text { .. } => SendStep::FindApp,
        Cargo::Picture => SendStep::ForgetChat,
    }
}

/// The first step towards a message sent.
pub open spec fn send_first(cargo: Cargo, known: bool) -> SendStep {
    if known {
        SendStep::IsAlive
    } else {
        send_in_main(cargo)
    }
}

/// The step that follows.
pub open spec fn send_next(cargo: Cargo, s: SendStep, e: UiEvent) -> SendStep {
    match (s, e) {
        (SendStep::IsAlive, UiEvent::Flag(true)) => SendStep::InWindow,
        (SendStep::IsAlive, UiEvent::Flag(false)) => SendStep::Forget,
        (SendStep::InWindow, _) => SendStep::Done(SendEnd::Delegated),
        (SendStep::Forget, UiEvent::Done) => send_in_main(cargo),
        (SendStep::ForgetChat, UiEvent::Done) => SendStep::GoTo { app: 0 },
        (SendStep::FindApp, UiEvent::Node(Some(app))) => SendStep::GoTo { app },
        (SendStep::FindApp, UiEvent::Node(None)) => SendStep::Done(SendEnd::NoApp),
        (SendStep::GoTo { app }, UiEvent::Flag(true)) => SendStep::Paste { app },
        (SendStep::GoTo { .. }, UiEvent::Flag(false)) => SendStep::Done(SendEnd::NoChat),
        (SendStep::GoTo { .. }, UiEvent::Failed) => SendStep::Done(SendEnd::Failed),
        (SendStep::Paste { app }, UiEvent::Done) => SendStep::PressEnter { app },
        (SendStep::Paste { .. }, UiEvent::Failed) => SendStep::Done(SendEnd::Failed),
        (SendStep::PressEnter { app }, UiEvent::Done) => if cargo == (Cargo::Text {
            verify: true,
        }) {
            SendStep::Verify { app }
        } else {
            SendStep::Done(SendEnd::Sent { verified: false })
        },
        (SendStep::PressEnter { .. }, UiEvent::Failed) => SendStep::Done(SendEnd::Failed),
        (SendStep::Verify { .. }, UiEvent::Flag(verified)) => SendStep::Done(
            SendEnd::Sent { verified },
        ),
        _ => s,
    }
}

/// The chats with a window of their own after a step: one is gone once its
/// window was forgotten.
pub open spec fn listening_after_send(
    list: Seq<Seq<char>>,
    to: Seq<char>,
    s: SendStep,
    e: UiEvent,
) -> Seq<Seq<char>> {
    match (s, e) {
        (SendStep::Forget, UiEvent::Done) => config::without(list, seq![to]),
        _ => list,
    }
}

/// What the main window is known to show after a step on the way to a message
/// sent.
pub open spec fn shown_after_send(
    current: Option<Seq<char>>,
    s: SendStep,
    e: UiEvent,
) -> Option<Seq<char>> {
    match (s, e) {
        (SendStep::Forget, UiEvent::Done) => None,
        (SendStep::ForgetChat, UiEvent::Done) => None,
        _ => current,
    }
}

/// How long to wait after a step, in milliseconds: not at all where it failed
/// or did not lead to the chat.
pub open spec fn send_wait(cargo: Cargo, s: SendStep, e: UiEvent) -> u64 {
    match (s, e) {
        (SendStep::GoTo { .. }, UiEvent::Flag(true)) => 300,
        (SendStep::Paste { .. }, UiEvent::Done) => if cargo == Cargo::Picture {
            500
        } else {
            300
        },
        (SendStep::PressEnter { .. }, UiEvent::Done) => if cargo == Cargo::Picture {
            0
        } else {
            500
        },
        _ => 0,
    }
}

impl SendStep {
    /// The step that follows.
    pub fn next(self, cargo: Cargo, e: UiEvent) -> (r: SendStep)
        ensures
            r == send_next(cargo, self, e),
    {
        let main = match cargo {
            Cargo::Text { .. } => SendStep::FindApp,
            Cargo::Picture => SendStep::ForgetChat,
        };
        match (self, e) {
            (SendStep::IsAlive, UiEvent::Flag(alive)) => if alive {
                SendStep::InWindow
            } else {
                SendStep::Forget
            },
            (SendStep::InWindow, _) => SendStep::Done(SendEnd::Delegated),
            (SendStep::Forget, UiEvent::Done) => main,
            (SendStep::ForgetChat, UiEvent::Done) => SendStep::GoTo { app: 0 },
            (SendStep::FindApp, UiEvent::Node(Some(app))) => SendStep::GoTo { app },
            (SendStep::FindApp, UiEvent::Node(None)) => SendStep::Done(SendEnd::NoApp),
            (SendStep::GoTo { app }, UiEvent::Flag(entered)) => if entered {
                SendStep::Paste { app }
            } else {
                SendStep::Done(SendEnd::NoChat)
            },
            (SendStep::GoTo { .. }, UiEvent::Failed) => SendStep::Done(SendEnd::Failed),
            (SendStep::Paste { app }, UiEvent::Done) => SendStep::PressEnter { app },
            (SendStep::Paste { .. }, UiEvent::Failed) => SendStep::Done(SendEnd::Failed),
            (SendStep::PressEnter { app }, UiEvent::Done) => match cargo {
                Cargo::Text { verify } => if verify {
                    SendStep::Verify { app }
                } else {
                    SendStep::Done(SendEnd::Sent { verified: false })
                },
                Cargo::Picture => SendStep::Done(SendEnd::Sent { verified: false }),
            },
            (SendStep::PressEnter { .. }, UiEvent::Failed) => SendStep::Done(SendEnd::Failed),
            (SendStep::Verify { .. }, UiEvent::Flag(verified)) => SendStep::Done(
                SendEnd::Sent { verified },
            ),
            _ => self,
        }
    }

    /// How long to wait after a step, in milliseconds.
    pub fn pause(self, cargo: Cargo, e: UiEvent) -> (r: u64)
        ensures
            r == send_wait(cargo, self, e),
    {
        let picture = match cargo {
            Cargo::Text { .. } => false,
            Cargo::Picture => true,
        };
        match (self, e) {
            (SendStep::GoTo { .. }, UiEvent::Flag(entered)) => if entered {
                300
            } else {
                0
            },
            (SendStep::Paste { .. }, UiEvent::Done) => if picture {
                500
            } else {
                300
            },
            (SendStep::PressEnter { .. }, UiEvent::Done) => if picture {
                0
            } else {
                500
            },
            _ => 0,
        }
    }
}

/// A text to send: the window is asked about it unless that is to be skipped.
pub open spec fn text_cargo(skip_verify: bool) -> Cargo {
    Cargo::Text { verify: !skip_verify }
}

/// What is told of something that was sent.
pub open spec fn sent_text(cargo: Cargo, verified: bool) -> Seq<char> {
    if cargo == Cargo::Picture {
        "图片已发送"@
    } else if verified {
        "消息已发送"@
    } else {
        "消息已发送 (未验证)"@
    }
}

/// What is told of an attempt to send in the main window; a chat's own window
/// and a key that could not be given tell for themselves.
pub fn send_reply(cargo: Cargo, end: SendEnd, to: &str) -> (r: Option<SendReply>)
    ensures
        match end {
            SendEnd::Sent { verified } => {
                &&& r matches Some(SendReply::Done { sent, verified: v, message })
                &&& sent
                &&& v == verified
                &&& message@ == sent_text(cargo, verified)
            },
            SendEnd::NoChat => {
                &&& r matches Some(SendReply::Done { sent, verified, message })
                &&& !sent
                &&& !verified
                &&& message@ == "未找到聊天: "@ + to@
            },
            SendEnd::NoApp => r matches Some(SendReply::Failed(e)) && e@ == "找不到微信应用"@,
            SendEnd::Delegated => r is None,
            SendEnd::Failed => r is None,
        },
{
    match end {
        SendEnd::Sent { verified } => {
            let message = match cargo {
                Cargo::Picture => "图片已发送",
                Cargo::Text { .. } => if verified {
                    "消息已发送"
                } else {
                    "消息已发送 (未验证)"
                },
            };
            Some(SendReply::Done { sent: true, verified, message: message.to_owned() })
        },
        SendEnd::NoChat => {
            let mut message = "未找到聊天: ".to_owned();
            message.append(to);
            Some(SendReply::Done { sent: false, verified: false, message })
        },
        SendEnd::NoApp => Some(SendReply::Failed("找不到微信应用".to_owned())),
        SendEnd::Delegated => None,
        SendEnd::Failed => None,
    }
}

impl WeChat {
    /// The first step towards a text sent, whether the window is to be asked if
    /// it arrived or not.
    pub fn send_message(&self, to: &str, skip_verify: bool) -> (r: (Cargo, SendStep))
        ensures
            r.0 == text_cargo(skip_verify),
            r.1 == send_first(r.0, text::views(self.listening@).contains(to@)),
    {
        let cargo = Cargo::Text { verify: !skip_verify };
        if self.is_listening(to) {
            (cargo, SendStep::IsAlive)
        } else {
            (cargo, SendStep::FindApp)
        }
    }

    /// The first step towards a picture sent.
    pub fn send_image(&self, to: &str) -> (r: (Cargo, SendStep))
        ensures
            r.0 == Cargo::Picture,
            r.1 == send_first(r.0, text::views(self.listening@).contains(to@)),
    {
        if self.is_listening(to) {
            (Cargo::Picture, SendStep::IsAlive)
        } else {
            (Cargo::Picture, SendStep::ForgetChat)
        }
    }

    /// The step that follows on the way to a message sent. What the step has
    /// done to the chat's own window, and to what the main window shows, is
    /// noted.
    pub fn send_step(&mut self, to: &str, cargo: Cargo, s: SendStep, e: UiEvent) -> (r: SendStep)
        ensures
            r == send_next(cargo, s, e),
            text::views(final(self).listening@) == listening_after_send(
                text::views(old(self).listening@),
                to@,
                s,
                e,
            ),
            text::opt_view(final(self).current_chat) == shown_after_send(
                text::opt_view(old(self).current_chat),
                s,
                e,
            ),
            old(self).wf() ==> final(self).wf(),
            final(self).seen_msg_ids == old(self).seen_msg_ids,
            final(self).pending == old(self).pending,
    {
        match (s, e) {
            (SendStep::Forget, UiEvent::Done) => {
                self.forget_window(to);
            },
            (SendStep::ForgetChat, UiEvent::Done) => {
                self.forget_chat();
            },
            _ => {},
        }
        s.next(cargo, e)
    }

    /// Forgets the window of a chat and what the main window shows.
    pub fn forget_window(&mut self, who: &str)
        ensures
            old(self).wf() ==> final(self).wf(),
            text::views(final(self).listening@) == config::without(
                text::views(old(self).listening@),
                seq![who@],
            ),
            final(self).current_chat is None,
            final(self).seen_msg_ids == old(self).seen_msg_ids,
            final(self).pending == old(self).pending,
    {
        self.unregister(who);
        self.current_chat = None;
    }

    /// Forgets what the main window shows.
    pub fn forget_chat(&mut self)
        ensures
            old(self).wf() ==> final(self).wf(),
            final(self).current_chat is None,
            final(self).listening == old(self).listening,
            final(self).seen_msg_ids == old(self).seen_msg_ids,
            final(self).pending == old(self).pending,
    {
        self.current_chat = None;
    }
}

// ---------------------------------------------------------------------
// Asking the window
// ---------------------------------------------------------------------

/// How often the window is asked.
pub const VERIFY_TRIES: u8 = 3;

/// A step on the way to knowing whether a text arrived.
#[derive(Debug, Clone, Copy)]
pub enum VerifyStep {
    /// Find the list of messages.
    FindMessages { tries: u8 },
    /// Look through its end.
    Check { tries: u8, list: u64 },
    Done(bool),
}

/// The step after an attempt that showed nothing.
pub open spec fn verify_again(tries: u8) -> VerifyStep {
    if tries + 1 < VERIFY_TRIES {
        VerifyStep::FindMessages { tries: (tries + 1) as u8 }
    } else {
        VerifyStep::Done(false)
    }
}

/// The step that follows.
pub open spec fn verify_next(s: VerifyStep, e: UiEvent) -> VerifyStep {
    match (s, e) {
        (VerifyStep::FindMessages { tries }, UiEvent::Node(Some(list))) => VerifyStep::Check {
            tries,
            list,
        },
        (VerifyStep::FindMessages { tries }, UiEvent::Node(None)) => verify_again(tries),
        (VerifyStep::Check { .. }, UiEvent::Flag(true)) => VerifyStep::Done(true),
        (VerifyStep::Check { tries, .. }, UiEvent::Flag(false)) => verify_again(tries),
        _ => s,
    }
}

/// How long to wait before a step, in milliseconds.
pub open spec fn verify_wait(s: VerifyStep) -> u64 {
    match s {
        VerifyStep::FindMessages { tries } => if tries > 0 {
            500
        } else {
            0
        },
        _ => 0,
    }
}

impl VerifyStep {
    /// The first step.
    pub fn start() -> (r: VerifyStep)
        ensures
            r == (VerifyStep::FindMessages { tries: 0 }),
    {
        VerifyStep::FindMessages { tries: 0 }
    }

    /// The step that follows.
    pub fn next(self, e: UiEvent) -> (r: VerifyStep)
        ensures
            r == verify_next(self, e),
    {
        match (self, e) {
            (VerifyStep::FindMessages { tries }, UiEvent::Node(Some(list))) => {
                VerifyStep::Check { tries, list }
            },
            (VerifyStep::FindMessages { tries }, UiEvent::Node(None)) => if tries
                < VERIFY_TRIES - 1 {
                VerifyStep::FindMessages { tries: tries + 1 }
            } else {
                VerifyStep::Done(false)
            },
            (VerifyStep::Check { tries, .. }, UiEvent::Flag(seen)) => if seen {
                VerifyStep::Done(true)
            } else if tries < VERIFY_TRIES - 1 {
                VerifyStep::FindMessages { tries: tries + 1 }
            } else {
                VerifyStep::Done(false)
            },
            _ => self,
        }
    }

    /// How long to wait before this step, in milliseconds.
    pub fn pause(self) -> (r: u64)
        ensures
            r == verify_wait(self),
    {
        match self {
            VerifyStep::FindMessages { tries } => if tries > 0 {
                500
            } else {
                0
            },
            _ => 0,
        }
    }
}

// ---------------------------------------------------------------------
// Laws
// ---------------------------------------------------------------------

/// The steps of going to a chat, from one on, where each step goes as told; at
/// most so many of them as asked for.
pub open spec fn chat_run(s: ChatStep, w: spec_fn(ChatStep) -> UiEvent, most: nat) -> Seq<ChatStep>
    decreases most,
{
    if most == 0 || s is Done {
        seq![s]
    } else {
        seq![s] + chat_run(chat_next(s, w(s)), w, (most - 1) as nat)
    }
}

/// A chat that the main window shows already is left alone: nothing is done.
pub proof fn law_same_chat_needs_nothing(who: Seq<char>, w: spec_fn(ChatStep) -> UiEvent)
    ensures
        chat_run(chat_first(Some(who), who), w, 20) == seq![ChatStep::Done(ChatEnd::Already)],
{
}

/// A chat that stands in the list is clicked on, once, and nothing is typed.
pub proof fn law_listed_chat_is_clicked(
    w: spec_fn(ChatStep) -> UiEvent,
    app: u64,
    list: u64,
    item: u64,
    x: i32,
    y: i32,
)
    requires
        w(ChatStep::FindApp) == UiEvent::Node(Some(app)),
        w(ChatStep::FindList { app }) == UiEvent::Node(Some(list)),
        w(ChatStep::FindSession { app, list }) == UiEvent::Node(Some(item)),
        w(ChatStep::CenterOf { app, item }) == UiEvent::Point(Some((x, y))),
        w(ChatStep::Click { x, y }) == UiEvent::Done,
    ensures
        chat_run(ChatStep::Focus, w, 20) == seq![
            ChatStep::Focus,
            ChatStep::FindApp,
            ChatStep::FindList { app },
            ChatStep::FindSession { app, list },
            ChatStep::CenterOf { app, item },
            ChatStep::Click { x, y },
            ChatStep::Done(ChatEnd::Listed),
        ],
{
    reveal_with_fuel(chat_run, 8);
    assert(chat_run(ChatStep::Focus, w, 20) =~= seq![
        ChatStep::Focus,
        ChatStep::FindApp,
        ChatStep::FindList { app },
        ChatStep::FindSession { app, list },
        ChatStep::CenterOf { app, item },
        ChatStep::Click { x, y },
        ChatStep::Done(ChatEnd::Listed),
    ]);
}

/// A chat that does not stand in the list is looked for in the search box:
/// opened, emptied, the name pasted, the first result taken, and closed.
pub proof fn law_unlisted_chat_is_searched(
    w: spec_fn(ChatStep) -> UiEvent,
    app: u64,
    list: u64,
    found: Option<u64>,
)
    requires
        w(ChatStep::FindApp) == UiEvent::Node(Some(app)),
        w(ChatStep::FindList { app }) == UiEvent::Node(Some(list)),
        w(ChatStep::FindSession { app, list }) == UiEvent::Node(None),
        w(ChatStep::OpenSearch { app }) == UiEvent::Done,
        w(ChatStep::SelectAll { app }) == UiEvent::Done,
        w(ChatStep::PasteName { app }) == UiEvent::Done,
        w(ChatStep::Enter { app }) == UiEvent::Done,
        w(ChatStep::Escape { app }) == UiEvent::Done,
        w(ChatStep::FindMessages { app }) == UiEvent::Node(found),
    ensures
        chat_run(ChatStep::Focus, w, 20) == seq![
            ChatStep::Focus,
            ChatStep::FindApp,
            ChatStep::FindList { app },
            ChatStep::FindSession { app, list },
            ChatStep::OpenSearch { app },
            ChatStep::SelectAll { app },
            ChatStep::PasteName { app },
            ChatStep::Enter { app },
            ChatStep::Escape { app },
            ChatStep::FindMessages { app },
            ChatStep::Done(
                if found is Some {
                    ChatEnd::Searched
                } else {
                    ChatEnd::Absent
                },
            ),
        ],
{
    reveal_with_fuel(chat_run, 12);
    assert(chat_run(ChatStep::Focus, w, 20) =~= seq![
        ChatStep::Focus,
        ChatStep::FindApp,
        ChatStep::FindList { app },
        ChatStep::FindSession { app, list },
        ChatStep::OpenSearch { app },
        ChatStep::SelectAll { app },
        ChatStep::PasteName { app },
        ChatStep::Enter { app },
        ChatStep::Escape { app },
        ChatStep::FindMessages { app },
        ChatStep::Done(
            if found is Some {
                ChatEnd::Searched
            } else {
                ChatEnd::Absent
            },
        ),
    ]);
}

/// How many steps are left at most on the way to a chat.
pub open spec fn chat_left(s: ChatStep) -> int {
    match s {
        ChatStep::Focus => 11,
        ChatStep::FindApp => 10,
        ChatStep::FindList { .. } => 9,
        ChatStep::FindSession { .. } => 8,
        ChatStep::CenterOf { .. } => 7,
        ChatStep::OpenSearch { .. } => 6,
        ChatStep::SelectAll { .. } => 5,
        ChatStep::PasteName { .. } => 4,
        ChatStep::Enter { .. } => 3,
        ChatStep::Escape { .. } => 2,
        ChatStep::FindMessages { .. } => 1,
        ChatStep::Click { .. } => 1,
        ChatStep::Done(_) => 0,
    }
}

/// How many steps are left at most on the way to a chat's own window.
pub open spec fn add_left(s: AddStep) -> int {
    match s {
        AddStep::FindApp { .. } => 20,
        AddStep::IsAlive { .. } => 19,
        AddStep::Forget { .. } => 18,
        AddStep::FindExisting { .. } => 17,
        AddStep::Focus { .. } => 16,
        AddStep::GoTo { .. } => 15,
        AddStep::FindList { .. } => 14,
        AddStep::FindSession { .. } => 13,
        AddStep::CenterOf { .. } => 12,
        AddStep::DoubleClick { .. } => 11,
        AddStep::ForgetChat { .. } => 10,
        AddStep::Wait { tries, .. } => if tries < WINDOW_TRIES {
            3 + 2 * (WINDOW_TRIES - tries)
        } else {
            3
        },
        AddStep::FindNew { tries, .. } => if tries < WINDOW_TRIES {
            2 + 2 * (WINDOW_TRIES - tries)
        } else {
            2
        },
        AddStep::Adopt { .. } => 1,
        AddStep::Done(_) => 0,
    }
}

/// How many steps are left at most on the way to a message sent.
pub open spec fn send_left(s: SendStep) -> int {
    match s {
        SendStep::IsAlive => 8,
        SendStep::Forget => 7,
        SendStep::ForgetChat => 6,
        SendStep::FindApp => 5,
        SendStep::GoTo { .. } => 4,
        SendStep::Paste { .. } => 3,
        SendStep::PressEnter { .. } => 2,
        SendStep::Verify { .. } => 1,
        SendStep::InWindow => 1,
        SendStep::Done(_) => 0,
    }
}

/// How many steps are left at most on the way to knowing whether a text
/// arrived.
pub open spec fn verify_left(s: VerifyStep) -> int {
    match s {
        VerifyStep::FindMessages { tries } => if tries < VERIFY_TRIES {
            2 * (VERIFY_TRIES - tries)
        } else {
            2
        },
        VerifyStep::Check { tries, .. } => if tries < VERIFY_TRIES {
            2 * (VERIFY_TRIES - tries) - 1
        } else {
            1
        },
        VerifyStep::Done(_) => 0,
    }
}

/// How many steps are left at most on the way to the main window.
pub open spec fn focus_left(s: FocusStep) -> int {
    match s {
        FocusStep::Activate(i) => 2 * i32::MAX + 8 - i,
        FocusStep::FindApp => 2 * i32::MAX + 4,
        FocusStep::FindFrame { from, .. } => 2 * (i32::MAX - from) + 3,
        FocusStep::PlaceOf { index, .. } => 2 * (i32::MAX - index) + 2,
        FocusStep::Click { .. } => 1,
        FocusStep::Done(_) => 0,
    }
}

/// Every flow ends: a step that an event moves on leaves less to do. A search
/// for the main window must only give windows from where it started.
pub proof fn law_flows_end(
    chat: ChatStep,
    add: AddStep,
    cargo: Cargo,
    send: SendStep,
    verify: VerifyStep,
    focus: FocusStep,
    e: UiEvent,
)
    requires
        focus_ready(focus, e),
        focus matches FocusStep::FindFrame { from, .. } ==> (e matches UiEvent::Frame(Some(f))
            ==> f.1 >= from),
    ensures
        chat_next(chat, e) == chat || chat_left(chat_next(chat, e)) < chat_left(chat),
        add_next(add, e) == add || add_left(add_next(add, e)) < add_left(add),
        send_next(cargo, send, e) == send || send_left(send_next(cargo, send, e)) < send_left(send),
        verify_next(verify, e) == verify || verify_left(verify_next(verify, e)) < verify_left(
            verify,
        ),
        focus_next(focus, e) == focus || focus_left(focus_next(focus, e)) < focus_left(focus),
{
}

/// A chat's own window comes first: while it lives, all is left to it, and the
/// main window is used only once it is gone or where there is none.
pub proof fn law_own_window_first(cargo: Cargo, e: UiEvent)
    ensures
        send_next(cargo, send_first(cargo, true), UiEvent::Flag(true)) == SendStep::InWindow,
        send_next(cargo, SendStep::InWindow, e) == SendStep::Done(SendEnd::Delegated),
        send_next(cargo, send_first(cargo, true), UiEvent::Flag(false)) == SendStep::Forget,
        send_next(cargo, SendStep::Forget, UiEvent::Done) == send_first(cargo, false),
{
}

/// Nothing is pasted before the chat is entered.
pub proof fn law_no_paste_before_chat(cargo: Cargo, s: SendStep, e: UiEvent)
    requires
        !(s is Paste),
        send_next(cargo, s, e) is Paste,
    ensures
        s is GoTo,
        e == UiEvent::Flag(true),
{
}

/// A message counts as sent only once it was sent off, and as seen only where
/// the window was asked and said so.
pub proof fn law_sent_is_true(cargo: Cargo, s: SendStep, e: UiEvent, verified: bool)
    requires
        !(s is Done),
        send_next(cargo, s, e) == SendStep::Done(SendEnd::Sent { verified }),
    ensures
        s is PressEnter && e is Done && !verified || s is Verify && e == UiEvent::Flag(verified),
{
}

/// The window is asked only about a text that was sent off and is to be
/// verified.
pub proof fn law_asked_after_sending(cargo: Cargo, s: SendStep, e: UiEvent)
    requires
        !(s is Verify),
        send_next(cargo, s, e) is Verify,
    ensures
        s is PressEnter,
        e is Done,
        cargo == (Cargo::Text { verify: true }),
{
}

/// Once a chat was gone to, no other chat counts as shown: going to another one
/// really switches.
pub proof fn law_going_elsewhere_switches(
    current: Option<Seq<char>>,
    who: Seq<char>,
    end: ChatEnd,
    other: Seq<char>,
)
    requires
        end == ChatEnd::Listed || end == ChatEnd::Searched || end == ChatEnd::Absent,
        other != who,
    ensures
        chat_first(chat_after(current, who, end), other) == ChatStep::Focus,
{
}

/// Only a chat that was entered is remembered as shown, and no other one once a
/// chat was gone to: one that was not found is forgotten, and so is the chat
/// that was shown before.
pub proof fn law_remembers_entered_chat(current: Option<Seq<char>>, who: Seq<char>, end: ChatEnd)
    ensures
        chat_after(current, who, end) != current && chat_after(current, who, end) is Some
            ==> chat_entered(end) && chat_after(current, who, end) == Some(who),
        end == ChatEnd::Listed || end == ChatEnd::Searched || end == ChatEnd::Absent
            ==> chat_after(current, who, end) is None || chat_after(current, who, end) == Some(who),
        end == ChatEnd::Absent ==> chat_after(current, who, end) is None,
{
}

/// Where the way to a chat stands, and what the main window is known to show,
/// after some events.
pub open spec fn chat_walk(
    s: ChatStep,
    shown: Option<Seq<char>>,
    who: Seq<char>,
    events: Seq<UiEvent>,
) -> (ChatStep, Option<Seq<char>>)
    decreases events.len(),
{
    if events.len() == 0 {
        (s, shown)
    } else {
        let e = events[0];
        chat_walk(chat_next(s, e), shown_after(shown, who, s, e), who, events.skip(1))
    }
}

proof fn lemma_chat_walk(
    s: ChatStep,
    shown: Option<Seq<char>>,
    who: Seq<char>,
    events: Seq<UiEvent>,
)
    ensures
        ({
            let r = chat_walk(s, shown, who, events);
            match (s, r.0) {
                (ChatStep::Done(_), _) => r.0 == s && r.1 == shown,
                (_, ChatStep::Done(end)) => r.1 == chat_after(shown, who, end),
                _ => r.1 == shown,
            }
        }),
    decreases events.len(),
{
    if events.len() > 0 {
        let e = events[0];
        lemma_chat_walk(chat_next(s, e), shown_after(shown, who, s, e), who, events.skip(1));
    }
}

/// However going to a chat goes, what the main window shows is noted at its end
/// and only there.
pub proof fn law_chat_is_noted_at_the_end(
    current: Option<Seq<char>>,
    who: Seq<char>,
    events: Seq<UiEvent>,
)
    ensures
        ({
            let r = chat_walk(chat_first(current, who), current, who, events);
            match r.0 {
                ChatStep::Done(end) => r.1 == chat_after(current, who, end),
                _ => r.1 == current,
            }
        }),
{
    lemma_chat_walk(chat_first(current, who), current, who, events);
}

/// Where the way to a chat's own window stands, and which chats have one, after
/// some events.
pub open spec fn add_walk(
    s: AddStep,
    list: Seq<Seq<char>>,
    who: Seq<char>,
    events: Seq<UiEvent>,
) -> (AddStep, Seq<Seq<char>>)
    decreases events.len(),
{
    if events.len() == 0 {
        (s, list)
    } else {
        let e = events[0];
        add_walk(add_next(s, e), listening_after(list, who, s, e), who, events.skip(1))
    }
}

/// Whether a step on the way to a chat's own window suits the list of chats that
/// have one, which was another at the start.
spec fn add_suits(
    first: Seq<Seq<char>>,
    who: Seq<char>,
    s: AddStep,
    list: Seq<Seq<char>>,
) -> bool {
    &&& config::without(list, seq![who]) == config::without(first, seq![who])
    &&& match s {
        AddStep::FindApp { known } => list == first && known == list.contains(who),
        AddStep::IsAlive { .. } => list == first && list.contains(who),
        AddStep::Forget { .. } => list == first && list.contains(who),
        AddStep::Done(AddEnd::Listening) => list.contains(who),
        AddStep::Done(AddEnd::NoApp) => list == first,
        _ => !list.contains(who),
    }
}

proof fn lemma_add_walk(
    first: Seq<Seq<char>>,
    s: AddStep,
    list: Seq<Seq<char>>,
    who: Seq<char>,
    events: Seq<UiEvent>,
)
    requires
        add_suits(first, who, s, list),
    ensures
        ({
            let r = add_walk(s, list, who, events);
            add_suits(first, who, r.0, r.1)
        }),
    decreases events.len(),
{
    if events.len() > 0 {
        let e = events[0];
        config::lemma_one_name_out(list, who);
        config::lemma_one_name_in(list, who);
        lemma_add_walk(
            first,
            add_next(s, e),
            listening_after(list, who, s, e),
            who,
            events.skip(1),
        );
    }
}

/// However an attempt to listen to a chat goes: where it ends well, the chat has
/// a window of its own; where no window came up, or a click or a key could not
/// be given, it has none; where the chat program was not found, nothing has
/// changed. All other chats keep what they had, in their order.
pub proof fn law_added_is_listed(
    list: Seq<Seq<char>>,
    who: Seq<char>,
    events: Seq<UiEvent>,
)
    ensures
        ({
            let r = add_walk(AddStep::FindApp { known: list.contains(who) }, list, who, events);
            &&& r.0 == AddStep::Done(AddEnd::Listening) ==> r.1.contains(who)
            &&& r.0 == AddStep::Done(AddEnd::NoWindow) ==> !r.1.contains(who)
            &&& r.0 == AddStep::Done(AddEnd::Failed) ==> !r.1.contains(who)
            &&& r.0 == AddStep::Done(AddEnd::NoApp) ==> r.1 == list
            &&& config::without(r.1, seq![who]) == config::without(list, seq![who])
            &&& forall|name: Seq<char>|
                name != who ==> (#[trigger] r.1.contains(name) <==> list.contains(name))
        }),
{
    let s = AddStep::FindApp { known: list.contains(who) };
    lemma_add_walk(list, s, list, who, events);
    config::lemma_one_name_out(list, who);
    let after = add_walk(s, list, who, events).1;
    config::lemma_one_name_out(after, who);
    assert forall|name: Seq<char>| name != who implies (#[trigger] after.contains(name)
        <==> list.contains(name)) by {
        assert(config::without(after, seq![who]).contains(name) == config::without(
            list,
            seq![who],
        ).contains(name));
    }
}

/// Where the way to a message sent stands, and which chats have a window of
/// their own, after some events.
pub open spec fn send_walk(
    cargo: Cargo,
    s: SendStep,
    list: Seq<Seq<char>>,
    to: Seq<char>,
    events: Seq<UiEvent>,
) -> (SendStep, Seq<Seq<char>>)
    decreases events.len(),
{
    if events.len() == 0 {
        (s, list)
    } else {
        let e = events[0];
        send_walk(
            cargo,
            send_next(cargo, s, e),
            listening_after_send(list, to, s, e),
            to,
            events.skip(1),
        )
    }
}

/// Whether a step on the way to a message sent comes before the main window is
/// turned to.
pub open spec fn at_own_window(s: SendStep) -> bool {
    s is IsAlive || s is InWindow || s is Forget || s == SendStep::Done(SendEnd::Delegated)
}

proof fn lemma_send_walk(
    cargo: Cargo,
    first: Seq<Seq<char>>,
    s: SendStep,
    list: Seq<Seq<char>>,
    to: Seq<char>,
    events: Seq<UiEvent>,
)
    requires
        at_own_window(s) ==> list == first && first.contains(to),
        !at_own_window(s) ==> list == config::without(first, seq![to]) && !list.contains(to),
    ensures
        ({
            let r = send_walk(cargo, s, list, to, events);
            &&& at_own_window(r.0) ==> r.1 == first && first.contains(to)
            &&& !at_own_window(r.0) ==> r.1 == config::without(first, seq![to]) && !r.1.contains(to)
        }),
    decreases events.len(),
{
    if events.len() > 0 {
        let e = events[0];
        config::lemma_one_name_out(list, to);
        lemma_send_walk(
            cargo,
            first,
            send_next(cargo, s, e),
            listening_after_send(list, to, s, e),
            to,
            events.skip(1),
        );
    }
}

/// However sending goes: as long as the chat's own window is asked or sends, the
/// list of chats with such windows stays; once the main window is turned to, the
/// chat is no longer in it, and all others are, in their order.
pub proof fn law_dead_window_is_forgotten(
    cargo: Cargo,
    list: Seq<Seq<char>>,
    to: Seq<char>,
    events: Seq<UiEvent>,
)
    ensures
        ({
            let r = send_walk(cargo, send_first(cargo, list.contains(to)), list, to, events);
            &&& at_own_window(r.0) ==> r.1 == list && list.contains(to)
            &&& !at_own_window(r.0) ==> r.1 == config::without(list, seq![to]) && !r.1.contains(to)
            &&& forall|name: Seq<char>|
                name != to ==> (#[trigger] r.1.contains(name) <==> list.contains(name))
        }),
{
    config::lemma_one_name_out(list, to);
    lemma_send_walk(cargo, list, send_first(cargo, list.contains(to)), list, to, events);
}

/// Once the chat's own window or what the main window shows was forgotten, the
/// main window is gone to anew: what it showed before does not count.
pub proof fn law_main_window_is_gone_to_anew(
    cargo: Cargo,
    current: Option<Seq<char>>,
    to: Seq<char>,
    s: SendStep,
    e: UiEvent,
)
    requires
        s is Forget || s is ForgetChat,
        send_next(cargo, s, e) != s,
    ensures
        shown_after_send(current, s, e) is None,
        chat_first(shown_after_send(current, s, e), to) == ChatStep::Focus,
{
}

proof fn lemma_picture_walk(
    s: SendStep,
    list: Seq<Seq<char>>,
    to: Seq<char>,
    events: Seq<UiEvent>,
)
    requires
        !(s is FindApp),
    ensures
        !(send_walk(Cargo::Picture, s, list, to, events).0 is FindApp),
    decreases events.len(),
{
    if events.len() > 0 {
        let e = events[0];
        lemma_picture_walk(
            send_next(Cargo::Picture, s, e),
            listening_after_send(list, to, s, e),
            to,
            events.skip(1),
        );
    }
}

/// A picture goes to the chat only after what the main window shows was
/// forgotten.
pub proof fn law_picture_forgets_first(
    list: Seq<Seq<char>>,
    to: Seq<char>,
    events: Seq<UiEvent>,
    e: UiEvent,
)
    requires
        ({
            let s = send_walk(
                Cargo::Picture,
                send_first(Cargo::Picture, list.contains(to)),
                list,
                to,
                events,
            ).0;
            !(s is GoTo) && send_next(Cargo::Picture, s, e) is GoTo
        }),
    ensures
        send_walk(
            Cargo::Picture,
            send_first(Cargo::Picture, list.contains(to)),
            list,
            to,
            events,
        ).0 is ForgetChat,
{
    lemma_picture_walk(send_first(Cargo::Picture, list.contains(to)), list, to, events);
}

// ---------------------------------------------------------------------
// Laws on single steps
// ---------------------------------------------------------------------

/// The chat program is found where one of two looks at the list of programs
/// shows it; the list is connected to anew only after a look in vain, and looked
/// at again only where that worked.
pub proof fn law_app_is_looked_for_twice(app: u64, found: Option<u64>)
    ensures
        app_next(AppStep::Scan, UiEvent::Node(Some(app))) == AppStep::Done(Some(app)),
        app_next(AppStep::Scan, UiEvent::Node(None)) == AppStep::Reconnect,
        app_next(AppStep::Reconnect, UiEvent::Flag(true)) == AppStep::Rescan,
        app_next(AppStep::Reconnect, UiEvent::Flag(false)) == AppStep::Done(None),
        app_next(AppStep::Rescan, UiEvent::Node(found)) == AppStep::Done(found),
{
}

/// A program is told as found only where a look showed it.
pub proof fn law_found_app_was_seen(s: AppStep, e: UiEvent, app: u64)
    requires
        !(s is Done),
        app_next(s, e) == AppStep::Done(Some(app)),
    ensures
        s is Scan || s is Rescan,
        e == UiEvent::Node(Some(app)),
{
}

/// The main window is brought to the front by its titles, one after the other,
/// and only where none works by a click on a title bar.
pub proof fn law_titles_before_clicks(i: usize, s: FocusStep, e: UiEvent)
    requires
        i < 3,
    ensures
        focus_next(FocusStep::Activate(i), UiEvent::Flag(true)) == FocusStep::Done(true),
        i < 2 ==> focus_next(FocusStep::Activate(i), UiEvent::Flag(false)) == FocusStep::Activate(
            (i + 1) as usize,
        ),
        i < 2 ==> focus_next(FocusStep::Activate(i), UiEvent::Failed) == FocusStep::Activate(
            (i + 1) as usize,
        ),
        focus_next(FocusStep::Activate(2), UiEvent::Flag(false)) == FocusStep::FindApp,
        focus_next(FocusStep::Activate(2), UiEvent::Failed) == FocusStep::FindApp,
        !(s is Click) && focus_next(s, e) is Click ==> s is PlaceOf,
        !(s is Done) && focus_next(s, e) == FocusStep::Done(true) ==> s is Activate && e
            == UiEvent::Flag(true) || s is Click,
{
}

/// The click goes to the middle of the window's upper edge, fifteen below it,
/// but never off the screen to the left or above.
pub proof fn law_click_hits_the_title_bar(app: u64, node: u64, index: i32, r: Rect)
    requires
        on_screen(r),
        r.w >= 0,
    ensures
        focus_next(FocusStep::PlaceOf { app, node, index }, UiEvent::Place(Some(r))) matches
            FocusStep::Click { x, y } && x >= 0 && y >= 0 && (r.x + r.w / 2 >= 0 ==> r.x <= x && x
            <= r.x + r.w && 2 * (x - r.x) <= r.w && r.w <= 2 * (x - r.x) + 1) && (r.y >= -15 ==> y
            == r.y + 15) && (r.x + r.w / 2 < 0 ==> x == 0) && (r.y < -15 ==> y == 0),
{
}

/// A window that stands nowhere is passed over: the search goes on behind it.
pub proof fn law_unplaced_window_is_passed(app: u64, node: u64, index: i32, from: i32)
    requires
        index < i32::MAX,
    ensures
        focus_next(FocusStep::FindApp, UiEvent::Node(Some(app))) == (FocusStep::FindFrame {
            app,
            from: 0,
        }),
        focus_next(FocusStep::FindApp, UiEvent::Node(None)) == FocusStep::Done(false),
        focus_next(FocusStep::FindFrame { app, from }, UiEvent::Frame(Some((node, index)))) == (
        FocusStep::PlaceOf { app, node, index }),
        focus_next(FocusStep::FindFrame { app, from }, UiEvent::Frame(None)) == FocusStep::Done(
            false,
        ),
        focus_next(FocusStep::PlaceOf { app, node, index }, UiEvent::Place(None)) == (
        FocusStep::FindFrame { app, from: (index + 1) as i32 }),
{
}

/// A chat counts as picked only after a click on its entry was given, as found
/// only where the messages were seen after the search, and as absent only where
/// they were not.
pub proof fn law_chat_ends(s: ChatStep, e: UiEvent, app: u64)
    requires
        !(s is Done),
    ensures
        chat_next(s, e) == ChatStep::Done(ChatEnd::Listed) ==> s is Click && e is Done,
        chat_next(s, e) == ChatStep::Done(ChatEnd::Searched) ==> s is FindMessages && e
            matches UiEvent::Node(Some(_)),
        chat_next(s, e) == ChatStep::Done(ChatEnd::Absent) ==> s is FindMessages && e
            == UiEvent::Node(None),
        chat_next(s, e) == ChatStep::Done(ChatEnd::NoApp) <==> s is FindApp && e == UiEvent::Node(
            None,
        ),
        chat_next(s, e) == ChatStep::Done(ChatEnd::Failed) <==> e is Failed && (s is Click
            || s is OpenSearch || s is SelectAll || s is PasteName || s is Enter || s is Escape),
        chat_next(s, e) != ChatStep::Done(ChatEnd::Already),
{
}

/// The search goes its whole way: the name is pasted only into a box that was
/// opened and emptied, confirmed only once pasted, and looked at only once the
/// box was closed again. A chat without a list, an entry or a place in it is
/// searched for.
pub proof fn law_search_goes_its_way(s: ChatStep, e: UiEvent, app: u64, list: u64, item: u64)
    ensures
        !(s is SelectAll) && chat_next(s, e) is SelectAll ==> s is OpenSearch && e is Done,
        !(s is PasteName) && chat_next(s, e) is PasteName ==> s is SelectAll && e is Done,
        !(s is Enter) && chat_next(s, e) is Enter ==> s is PasteName && e is Done,
        !(s is Escape) && chat_next(s, e) is Escape ==> s is Enter && e is Done,
        !(s is FindMessages) && chat_next(s, e) is FindMessages ==> s is Escape && e is Done,
        !(s is Click) && chat_next(s, e) is Click ==> s is CenterOf && e is Point,
        !(s is FindApp) && chat_next(s, e) is FindApp ==> s is Focus,
        chat_next(ChatStep::Focus, e) == ChatStep::FindApp,
        chat_next(ChatStep::FindList { app }, UiEvent::Node(None)) == (ChatStep::OpenSearch { app }),
        chat_next(ChatStep::FindSession { app, list }, UiEvent::Node(None)) == (
        ChatStep::OpenSearch { app }),
        chat_next(ChatStep::CenterOf { app, item }, UiEvent::Point(None)) == (ChatStep::OpenSearch {
            app,
        }),
{
}

/// A chat is left alone exactly where the main window is known to show it.
pub proof fn law_only_the_shown_chat_is_left_alone(current: Option<Seq<char>>, who: Seq<char>)
    ensures
        chat_first(current, who) is Done <==> current == Some(who),
        chat_first(current, who) == ChatStep::Focus <==> current != Some(who),
{
}

/// What is shown after going to a chat: the chat, where it was picked or found,
/// unless it is known by a group's number; nothing where it was not found; and
/// what was shown before in any other case.
pub proof fn law_what_is_shown_then(current: Option<Seq<char>>, who: Seq<char>, end: ChatEnd)
    ensures
        end == ChatEnd::Listed ==> chat_after(current, who, end) == Some(who),
        end == ChatEnd::Searched && !text::occurs(who, "@chatroom"@) ==> chat_after(
            current,
            who,
            end,
        ) == Some(who),
        end == ChatEnd::Searched && text::occurs(who, "@chatroom"@) ==> chat_after(
            current,
            who,
            end,
        ) is None,
        end == ChatEnd::Absent ==> chat_after(current, who, end) is None,
        end == ChatEnd::Already || end == ChatEnd::NoApp || end == ChatEnd::Failed ==> chat_after(
            current,
            who,
            end,
        ) == current,
        chat_entered(end) <==> end == ChatEnd::Already || end == ChatEnd::Listed || end
            == ChatEnd::Searched,
{
}

/// A chat counts as listened to only where its window was found alive or was
/// taken over, and a window is taken over only where a search gave it, read only
/// where it is new.
pub proof fn law_window_before_listening(s: AddStep, e: UiEvent)
    requires
        !(s is Done),
    ensures
        add_next(s, e) == AddStep::Done(AddEnd::Listening) <==> s is IsAlive && e == UiEvent::Flag(
            true,
        ) || s is Adopt && e is Done,
        add_next(s, e) == AddStep::Done(AddEnd::NoApp) <==> s is FindApp && e == UiEvent::Node(
            None,
        ),
        add_next(s, e) == AddStep::Done(AddEnd::Failed) <==> e is Failed && (s is GoTo
            || s is DoubleClick),
        add_next(s, e) == AddStep::Done(AddEnd::NoWindow) ==> s is FindNew && e == UiEvent::Node(
            None,
        ),
        !(s is Adopt) ==> (add_next(s, e) matches AddStep::Adopt { window, mark_read } ==> e
            == UiEvent::Node(Some(window)) && (mark_read ==> s is FindNew) && (!mark_read
            ==> s is FindExisting)),
        !(s is DoubleClick) && add_next(s, e) is DoubleClick ==> s is CenterOf,
        !(s is GoTo) && add_next(s, e) is GoTo ==> s is Focus,
        !(s is Forget) && add_next(s, e) is Forget ==> s is IsAlive && e == UiEvent::Flag(false),
{
}

/// The steps towards a chat's own window, from one on, where each step goes as
/// told; at most so many of them as asked for.
pub open spec fn add_run(s: AddStep, w: spec_fn(AddStep) -> UiEvent, most: nat) -> Seq<AddStep>
    decreases most,
{
    if most == 0 || s is Done {
        seq![s]
    } else {
        seq![s] + add_run(add_next(s, w(s)), w, (most - 1) as nat)
    }
}

/// A window that is there already is used: one that is known and alive as it is,
/// any other is taken over without being marked as read; nothing is clicked.
pub proof fn law_window_that_is_there_is_used(
    w: spec_fn(AddStep) -> UiEvent,
    known: bool,
    app: u64,
    window: u64,
)
    requires
        w(AddStep::FindApp { known }) == UiEvent::Node(Some(app)),
        w(AddStep::IsAlive { app }) == UiEvent::Flag(true),
        w(AddStep::FindExisting { app }) == UiEvent::Node(Some(window)),
        w(AddStep::Adopt { window, mark_read: false }) == UiEvent::Done,
    ensures
        known ==> add_run(AddStep::FindApp { known }, w, 30) == seq![
            AddStep::FindApp { known },
            AddStep::IsAlive { app },
            AddStep::Done(AddEnd::Listening),
        ],
        !known ==> add_run(AddStep::FindApp { known }, w, 30) == seq![
            AddStep::FindApp { known },
            AddStep::FindExisting { app },
            AddStep::Adopt { window, mark_read: false },
            AddStep::Done(AddEnd::Listening),
        ],
{
    reveal_with_fuel(add_run, 5);
    if known {
        assert(add_run(AddStep::FindApp { known }, w, 30) =~= seq![
            AddStep::FindApp { known },
            AddStep::IsAlive { app },
            AddStep::Done(AddEnd::Listening),
        ]);
    } else {
        assert(add_run(AddStep::FindApp { known }, w, 30) =~= seq![
            AddStep::FindApp { known },
            AddStep::FindExisting { app },
            AddStep::Adopt { window, mark_read: false },
            AddStep::Done(AddEnd::Listening),
        ]);
    }
}

/// Without a window the chat is gone to in the main window, its entry is clicked
/// twice, and the window that comes up is taken over and counts as read.
pub proof fn law_window_is_opened(
    w: spec_fn(AddStep) -> UiEvent,
    app: u64,
    entered: bool,
    list: u64,
    item: u64,
    x: i32,
    y: i32,
    window: u64,
)
    requires
        w(AddStep::FindApp { known: false }) == UiEvent::Node(Some(app)),
        w(AddStep::FindExisting { app }) == UiEvent::Node(None),
        w(AddStep::Focus { app }) == UiEvent::Done,
        w(AddStep::GoTo { app }) == UiEvent::Flag(entered),
        w(AddStep::FindList { app }) == UiEvent::Node(Some(list)),
        w(AddStep::FindSession { app, list }) == UiEvent::Node(Some(item)),
        w(AddStep::CenterOf { app, item }) == UiEvent::Point(Some((x, y))),
        w(AddStep::DoubleClick { app, x, y }) == UiEvent::Done,
        w(AddStep::ForgetChat { app }) == UiEvent::Done,
        w(AddStep::Wait { app, tries: 0 }) == UiEvent::Done,
        w(AddStep::FindNew { app, tries: 0 }) == UiEvent::Node(Some(window)),
        w(AddStep::Adopt { window, mark_read: true }) == UiEvent::Done,
    ensures
        add_run(AddStep::FindApp { known: false }, w, 30) == seq![
            AddStep::FindApp { known: false },
            AddStep::FindExisting { app },
            AddStep::Focus { app },
            AddStep::GoTo { app },
            AddStep::FindList { app },
            AddStep::FindSession { app, list },
            AddStep::CenterOf { app, item },
            AddStep::DoubleClick { app, x, y },
            AddStep::ForgetChat { app },
            AddStep::Wait { app, tries: 0 },
            AddStep::FindNew { app, tries: 0 },
            AddStep::Adopt { window, mark_read: true },
            AddStep::Done(AddEnd::Listening),
        ],
{
    reveal_with_fuel(add_run, 14);
    assert(add_run(AddStep::FindApp { known: false }, w, 30) =~= seq![
        AddStep::FindApp { known: false },
        AddStep::FindExisting { app },
        AddStep::Focus { app },
        AddStep::GoTo { app },
        AddStep::FindList { app },
        AddStep::FindSession { app, list },
        AddStep::CenterOf { app, item },
        AddStep::DoubleClick { app, x, y },
        AddStep::ForgetChat { app },
        AddStep::Wait { app, tries: 0 },
        AddStep::FindNew { app, tries: 0 },
        AddStep::Adopt { window, mark_read: true },
        AddStep::Done(AddEnd::Listening),
    ]);
}

/// A window that does not come up is looked for three times, with a wait before
/// each, and then given up.
pub proof fn law_new_window_is_looked_for_three_times(w: spec_fn(AddStep) -> UiEvent, app: u64)
    requires
        forall|tries: u8| w(AddStep::Wait { app, tries }) == #[trigger] done_for(tries),
        forall|tries: u8| w(AddStep::FindNew { app, tries }) == #[trigger] nothing_for(tries),
    ensures
        add_run(AddStep::Wait { app, tries: 0 }, w, 30) == seq![
            AddStep::Wait { app, tries: 0 },
            AddStep::FindNew { app, tries: 0 },
            AddStep::Wait { app, tries: 1 },
            AddStep::FindNew { app, tries: 1 },
            AddStep::Wait { app, tries: 2 },
            AddStep::FindNew { app, tries: 2 },
            AddStep::Done(AddEnd::NoWindow),
        ],
{
    reveal_with_fuel(add_run, 8);
    assert(done_for(0) is Done && done_for(1) is Done && done_for(2) is Done);
    assert(nothing_for(0) is Node && nothing_for(1) is Node && nothing_for(2) is Node);
    assert(add_run(AddStep::Wait { app, tries: 0 }, w, 30) =~= seq![
        AddStep::Wait { app, tries: 0 },
        AddStep::FindNew { app, tries: 0 },
        AddStep::Wait { app, tries: 1 },
        AddStep::FindNew { app, tries: 1 },
        AddStep::Wait { app, tries: 2 },
        AddStep::FindNew { app, tries: 2 },
        AddStep::Done(AddEnd::NoWindow),
    ]);
}

/// That a step of any try was carried out.
pub open spec fn done_for(tries: u8) -> UiEvent {
    UiEvent::Done
}

/// That a step of any try gave nothing.
pub open spec fn nothing_for(tries: u8) -> UiEvent {
    UiEvent::Node(None)
}

/// A chat that is not in the list of sessions, or has no place in it, is waited
/// for all the same.
pub proof fn law_unlisted_chat_is_waited_for(app: u64, list: u64, item: u64)
    ensures
        add_next(AddStep::FindList { app }, UiEvent::Node(None)) == (AddStep::Wait {
            app,
            tries: 0,
        }),
        add_next(AddStep::FindSession { app, list }, UiEvent::Node(None)) == (AddStep::Wait {
            app,
            tries: 0,
        }),
        add_next(AddStep::CenterOf { app, item }, UiEvent::Point(None)) == (AddStep::Wait {
            app,
            tries: 0,
        }),
        add_next(AddStep::IsAlive { app }, UiEvent::Flag(false)) == (AddStep::Forget { app }),
        add_next(AddStep::Forget { app }, UiEvent::Done) == (AddStep::FindExisting { app }),
{
}

/// What is sent is sent off only once it was pasted, whatever it is.
pub proof fn law_enter_after_paste(cargo: Cargo, s: SendStep, e: UiEvent)
    requires
        !(s is PressEnter),
        send_next(cargo, s, e) is PressEnter,
    ensures
        s is Paste,
        e is Done,
{
}

/// The step of sending that some events lead to.
pub open spec fn send_reached(cargo: Cargo, first: SendStep, events: Seq<UiEvent>) -> SendStep
    decreases events.len(),
{
    if events.len() == 0 {
        first
    } else {
        send_next(cargo, send_reached(cargo, first, events.drop_last()), events.last())
    }
}

/// Whether among some events one met a step of sending and answered it as told.
pub open spec fn went_through(
    cargo: Cargo,
    first: SendStep,
    events: Seq<UiEvent>,
    i: int,
    s: SendStep,
    e: UiEvent,
) -> bool {
    0 <= i < events.len() && send_reached(cargo, first, events.take(i)) == s && events[i] == e
}

proof fn lemma_went_through(cargo: Cargo, first: SendStep, events: Seq<UiEvent>, app: u64)
    requires
        first is IsAlive || first is FindApp || first is ForgetChat,
    ensures
        ({
            let s = send_reached(cargo, first, events);
            &&& s == (SendStep::Paste { app }) ==> exists|i: int| #[trigger]
                went_through(cargo, first, events, i, SendStep::GoTo { app }, UiEvent::Flag(true))
            &&& s == (SendStep::PressEnter { app }) ==> exists|i: int, j: int|
                i < j && #[trigger] went_through(
                    cargo,
                    first,
                    events,
                    i,
                    SendStep::GoTo { app },
                    UiEvent::Flag(true),
                ) && #[trigger] went_through(
                    cargo,
                    first,
                    events,
                    j,
                    SendStep::Paste { app },
                    UiEvent::Done,
                )
        }),
    decreases events.len(),
{
    if events.len() > 0 {
        let t = events.drop_last();
        let n = t.len() as int;
        lemma_went_through(cargo, first, t, app);
        assert(events.take(n) =~= t);
        let before = send_reached(cargo, first, t);
        let s = send_reached(cargo, first, events);
        assert forall|i: int, a: SendStep, e: UiEvent| #[trigger]
            went_through(cargo, first, t, i, a, e) implies went_through(
            cargo,
            first,
            events,
            i,
            a,
            e,
        ) by {
            assert(t.take(i) =~= events.take(i));
        }
        let go = SendStep::GoTo { app };
        let paste = SendStep::Paste { app };
        let yes = UiEvent::Flag(true);
        if s == paste && before != paste {
            assert(went_through(cargo, first, events, n, go, yes));
        }
        if s == paste && before == paste {
            let i = choose|i: int| #[trigger] went_through(cargo, first, t, i, go, yes);
            assert(went_through(cargo, first, events, i, go, yes));
        }
        if s == (SendStep::PressEnter { app }) {
            if before == paste {
                let i = choose|i: int| #[trigger] went_through(cargo, first, t, i, go, yes);
                assert(went_through(cargo, first, events, i, go, yes));
                assert(went_through(cargo, first, events, n, paste, UiEvent::Done));
            } else {
                let (i, j) = choose|i: int, j: int|
                    i < j && #[trigger] went_through(cargo, first, t, i, go, yes)
                        && #[trigger] went_through(cargo, first, t, j, paste, UiEvent::Done);
                assert(went_through(cargo, first, events, i, go, yes));
                assert(went_through(cargo, first, events, j, paste, UiEvent::Done));
            }
        }
    }
}

/// However sending goes: where it ends as sent, the chat was entered, then what
/// is sent was pasted, and both went well, whatever is sent and whether it is
/// verified or not.
pub proof fn law_sent_was_pasted(
    cargo: Cargo,
    known: bool,
    events: Seq<UiEvent>,
    verified: bool,
)
    requires
        send_reached(cargo, send_first(cargo, known), events) == SendStep::Done(
            SendEnd::Sent { verified },
        ),
    ensures
        exists|i: int, j: int, app: u64|
            i < j && #[trigger] went_through(
                cargo,
                send_first(cargo, known),
                events,
                i,
                SendStep::GoTo { app },
                UiEvent::Flag(true),
            ) && #[trigger] went_through(
                cargo,
                send_first(cargo, known),
                events,
                j,
                SendStep::Paste { app },
                UiEvent::Done,
            ),
{
    lemma_sent_reached(cargo, send_first(cargo, known), events, verified);
}

spec fn pasted(cargo: Cargo, first: SendStep, events: Seq<UiEvent>, i: int, j: int, app: u64) -> bool {
    &&& i < j
    &&& went_through(cargo, first, events, i, SendStep::GoTo { app }, UiEvent::Flag(true))
    &&& went_through(cargo, first, events, j, SendStep::Paste { app }, UiEvent::Done)
}

proof fn lemma_pasted_later(
    cargo: Cargo,
    first: SendStep,
    events: Seq<UiEvent>,
    i: int,
    j: int,
    app: u64,
)
    requires
        events.len() > 0,
        pasted(cargo, first, events.drop_last(), i, j, app),
    ensures
        pasted(cargo, first, events, i, j, app),
{
    let t = events.drop_last();
    assert(t.take(i) =~= events.take(i));
    assert(t.take(j) =~= events.take(j));
}

proof fn lemma_sent_reached(
    cargo: Cargo,
    first: SendStep,
    events: Seq<UiEvent>,
    verified: bool,
) -> (r: (int, int, u64))
    requires
        first is IsAlive || first is FindApp || first is ForgetChat,
        send_reached(cargo, first, events) == SendStep::Done(SendEnd::Sent { verified }),
    ensures
        pasted(cargo, first, events, r.0, r.1, r.2),
    decreases events.len(),
{
    let t = events.drop_last();
    let before = send_reached(cargo, first, t);
    let r = match before {
        SendStep::PressEnter { app } => lemma_pressed_reached(cargo, first, t, app),
        SendStep::Verify { app } => lemma_verify_reached(cargo, first, t, app),
        _ => lemma_sent_reached(cargo, first, t, verified),
    };
    lemma_pasted_later(cargo, first, events, r.0, r.1, r.2);
    r
}

proof fn lemma_verify_reached(cargo: Cargo, first: SendStep, events: Seq<UiEvent>, app: u64) -> (r: (
    int,
    int,
    u64,
))
    requires
        first is IsAlive || first is FindApp || first is ForgetChat,
        send_reached(cargo, first, events) == (SendStep::Verify { app }),
    ensures
        pasted(cargo, first, events, r.0, r.1, r.2),
    decreases events.len(),
{
    let t = events.drop_last();
    let r = if send_reached(cargo, first, t) is PressEnter {
        lemma_pressed_reached(cargo, first, t, app)
    } else {
        lemma_verify_reached(cargo, first, t, app)
    };
    lemma_pasted_later(cargo, first, events, r.0, r.1, r.2);
    r
}

proof fn lemma_pressed_reached(cargo: Cargo, first: SendStep, events: Seq<UiEvent>, app: u64) -> (r: (
    int,
    int,
    u64,
))
    requires
        first is IsAlive || first is FindApp || first is ForgetChat,
        send_reached(cargo, first, events) == (SendStep::PressEnter { app }),
    ensures
        pasted(cargo, first, events, r.0, r.1, r.2),
{
    lemma_went_through(cargo, first, events, app);
    let (i, j) = choose|i: int, j: int|
        i < j && #[trigger] went_through(
            cargo,
            first,
            events,
            i,
            SendStep::GoTo { app },
            UiEvent::Flag(true),
        ) && #[trigger] went_through(
            cargo,
            first,
            events,
            j,
            SendStep::Paste { app },
            UiEvent::Done,
        );
    (i, j, app)
}

/// The steps of sending, from one on, where each step goes as told; at most so
/// many of them as asked for.
pub open spec fn send_run(
    cargo: Cargo,
    s: SendStep,
    w: spec_fn(SendStep) -> UiEvent,
    most: nat,
) -> Seq<SendStep>
    decreases most,
{
    if most == 0 || s is Done {
        seq![s]
    } else {
        seq![s] + send_run(cargo, send_next(cargo, s, w(s)), w, (most - 1) as nat)
    }
}

/// A text goes out through the main window in this order: the program is found,
/// the chat entered, the text pasted and sent off; the window is asked whether
/// it shows it exactly where that is wanted.
pub proof fn law_text_goes_out(
    w: spec_fn(SendStep) -> UiEvent,
    verify: bool,
    app: u64,
    seen: bool,
)
    requires
        w(SendStep::FindApp) == UiEvent::Node(Some(app)),
        w(SendStep::GoTo { app }) == UiEvent::Flag(true),
        w(SendStep::Paste { app }) == UiEvent::Done,
        w(SendStep::PressEnter { app }) == UiEvent::Done,
        w(SendStep::Verify { app }) == UiEvent::Flag(seen),
    ensures
        ({
            let cargo = Cargo::Text { verify };
            let run = send_run(cargo, send_first(cargo, false), w, 20);
            &&& verify ==> run == seq![
                SendStep::FindApp,
                SendStep::GoTo { app },
                SendStep::Paste { app },
                SendStep::PressEnter { app },
                SendStep::Verify { app },
                SendStep::Done(SendEnd::Sent { verified: seen }),
            ]
            &&& !verify ==> run == seq![
                SendStep::FindApp,
                SendStep::GoTo { app },
                SendStep::Paste { app },
                SendStep::PressEnter { app },
                SendStep::Done(SendEnd::Sent { verified: false }),
            ]
        }),
{
    let cargo = Cargo::Text { verify };
    let run = send_run(cargo, send_first(cargo, false), w, 20);
    reveal_with_fuel(send_run, 7);
    if verify {
        assert(run =~= seq![
            SendStep::FindApp,
            SendStep::GoTo { app },
            SendStep::Paste { app },
            SendStep::PressEnter { app },
            SendStep::Verify { app },
            SendStep::Done(SendEnd::Sent { verified: seen }),
        ]);
    } else {
        assert(run =~= seq![
            SendStep::FindApp,
            SendStep::GoTo { app },
            SendStep::Paste { app },
            SendStep::PressEnter { app },
            SendStep::Done(SendEnd::Sent { verified: false }),
        ]);
    }
}

/// A picture goes out through the main window in this order: what is shown is
/// forgotten, the chat entered, the picture pasted and sent off; nobody is asked
/// about it.
pub proof fn law_picture_goes_out(w: spec_fn(SendStep) -> UiEvent)
    requires
        w(SendStep::ForgetChat) == UiEvent::Done,
        w(SendStep::GoTo { app: 0 }) == UiEvent::Flag(true),
        w(SendStep::Paste { app: 0 }) == UiEvent::Done,
        w(SendStep::PressEnter { app: 0 }) == UiEvent::Done,
    ensures
        send_run(Cargo::Picture, send_first(Cargo::Picture, false), w, 20) == seq![
            SendStep::ForgetChat,
            SendStep::GoTo { app: 0 },
            SendStep::Paste { app: 0 },
            SendStep::PressEnter { app: 0 },
            SendStep::Done(SendEnd::Sent { verified: false }),
        ],
{
    reveal_with_fuel(send_run, 6);
    assert(send_run(Cargo::Picture, send_first(Cargo::Picture, false), w, 20) =~= seq![
        SendStep::ForgetChat,
        SendStep::GoTo { app: 0 },
        SendStep::Paste { app: 0 },
        SendStep::PressEnter { app: 0 },
        SendStep::Done(SendEnd::Sent { verified: false }),
    ]);
}

/// Sending is given up where the program is not found, the chat is not found, or
/// a key could not be given, and for no other reason.
pub proof fn law_sending_is_given_up(cargo: Cargo, s: SendStep, e: UiEvent)
    requires
        !(s is Done),
    ensures
        send_next(cargo, s, e) == SendStep::Done(SendEnd::NoApp) <==> s is FindApp && e
            == UiEvent::Node(None),
        send_next(cargo, s, e) == SendStep::Done(SendEnd::NoChat) <==> s is GoTo && e
            == UiEvent::Flag(false),
        send_next(cargo, s, e) == SendStep::Done(SendEnd::Failed) <==> e is Failed && (s is GoTo
            || s is Paste || s is PressEnter),
        send_next(cargo, s, e) == SendStep::Done(SendEnd::Delegated) <==> s is InWindow,
        !(s is InWindow) && send_next(cargo, s, e) is InWindow ==> s is IsAlive && e
            == UiEvent::Flag(true),
        !(s is Forget) && send_next(cargo, s, e) is Forget ==> s is IsAlive && e == UiEvent::Flag(
            false,
        ),
{
}

/// A text counts as arrived only where the window's messages were looked at and
/// showed it; it is looked for three times at most, with a wait before each but
/// the first.
pub proof fn law_arrival_is_looked_for(s: VerifyStep, e: UiEvent, list: u64, tries: u8)
    ensures
        !(s is Done) && verify_next(s, e) == VerifyStep::Done(true) ==> s is Check && e
            == UiEvent::Flag(true),
        verify_next(VerifyStep::FindMessages { tries }, UiEvent::Node(Some(list))) == (
        VerifyStep::Check { tries, list }),
        verify_next(VerifyStep::Check { tries, list }, UiEvent::Flag(true)) == VerifyStep::Done(
            true,
        ),
        tries < 2 ==> verify_next(VerifyStep::Check { tries, list }, UiEvent::Flag(false)) == (
        VerifyStep::FindMessages { tries: (tries + 1) as u8 }),
        tries < 2 ==> verify_next(VerifyStep::FindMessages { tries }, UiEvent::Node(None)) == (
        VerifyStep::FindMessages { tries: (tries + 1) as u8 }),
        tries >= 2 ==> verify_next(VerifyStep::Check { tries, list }, UiEvent::Flag(false))
            == VerifyStep::Done(false),
        tries >= 2 ==> verify_next(VerifyStep::FindMessages { tries }, UiEvent::Node(None))
            == VerifyStep::Done(false),
        verify_wait(VerifyStep::FindMessages { tries }) > 0 <==> tries > 0,
{
}

/// Time is given only after what went well: half a second and more after every
/// click and key that opens or closes something.
pub proof fn law_waits(app: u64, x: i32, y: i32, tries: u8, cargo: Cargo, s: ChatStep, e: UiEvent)
    ensures
        chat_wait(s, e) > 0 ==> e is Done,
        chat_wait(ChatStep::Click { x, y }, UiEvent::Done) == 500,
        chat_wait(ChatStep::OpenSearch { app }, UiEvent::Done) == 500,
        chat_wait(ChatStep::SelectAll { app }, UiEvent::Done) == 100,
        chat_wait(ChatStep::PasteName { app }, UiEvent::Done) == 1500,
        chat_wait(ChatStep::Enter { app }, UiEvent::Done) == 800,
        chat_wait(ChatStep::Escape { app }, UiEvent::Done) == 500,
        add_wait(AddStep::DoubleClick { app, x, y }, UiEvent::Done) == 1000,
        add_wait(AddStep::Wait { app, tries }, UiEvent::Done) == 1500,
        send_wait(cargo, SendStep::GoTo { app }, UiEvent::Flag(true)) == 300,
        send_wait(cargo, SendStep::GoTo { app }, UiEvent::Flag(false)) == 0,
        send_wait(Cargo::Picture, SendStep::Paste { app }, UiEvent::Done) == 500,
        cargo != Cargo::Picture ==> send_wait(cargo, SendStep::Paste { app }, UiEvent::Done) == 300,
        cargo != Cargo::Picture ==> send_wait(cargo, SendStep::PressEnter { app }, UiEvent::Done)
            == 500,
        send_wait(Cargo::Picture, SendStep::PressEnter { app }, UiEvent::Done) == 0,
{
}

/// A chat with a window of its own that is alive is sent to there, and the main
/// window is left alone; where the window is gone it is forgotten, and the main
/// window is used as if there had never been one.
pub proof fn law_own_window_sends(
    cargo: Cargo,
    w: spec_fn(SendStep) -> UiEvent,
    v: spec_fn(SendStep) -> UiEvent,
)
    requires
        w(SendStep::IsAlive) == UiEvent::Flag(true),
        w(SendStep::InWindow) == UiEvent::Done,
        v(SendStep::IsAlive) == UiEvent::Flag(false),
        v(SendStep::Forget) == UiEvent::Done,
    ensures
        send_run(cargo, send_first(cargo, true), w, 20) == seq![
            SendStep::IsAlive,
            SendStep::InWindow,
            SendStep::Done(SendEnd::Delegated),
        ],
        send_run(cargo, send_first(cargo, true), v, 22) == seq![
            SendStep::IsAlive,
            SendStep::Forget,
        ] + send_run(cargo, send_first(cargo, false), v, 20),
{
    reveal_with_fuel(send_run, 4);
    assert(send_run(cargo, send_first(cargo, true), w, 20) =~= seq![
        SendStep::IsAlive,
        SendStep::InWindow,
        SendStep::Done(SendEnd::Delegated),
    ]);
    assert(send_run(cargo, send_first(cargo, true), v, 22) =~= seq![
        SendStep::IsAlive,
        SendStep::Forget,
    ] + send_run(cargo, send_first(cargo, false), v, 20));
}

/// What is over stays over.
pub proof fn law_the_end_is_the_end(
    e: UiEvent,
    cargo: Cargo,
    app: AppStep,
    focus: FocusStep,
    chat: ChatStep,
    add: AddStep,
    send: SendStep,
    verify: VerifyStep,
)
    ensures
        app is Done ==> app_next(app, e) == app,
        focus is Done ==> focus_next(focus, e) == focus,
        chat is Done ==> chat_next(chat, e) == chat,
        add is Done ==> add_next(add, e) == add,
        send is Done ==> send_next(cargo, send, e) == send,
        verify is Done ==> verify_next(verify, e) == verify,
{
}

/// A text is asked about exactly where that is not to be skipped.
pub proof fn law_skipping_skips_the_question(skip_verify: bool)
    ensures
        text_cargo(skip_verify) matches Cargo::Text { verify } && (verify <==> !skip_verify),
{
}

/// What is told of something sent is the same for two exactly where both are
/// pictures, or both are texts that were seen, or both texts that were not.
pub proof fn law_sent_is_told_apart(a: Cargo, va: bool, b: Cargo, vb: bool)
    ensures
        sent_text(a, va) == sent_text(b, vb) <==> (a == Cargo::Picture) == (b == Cargo::Picture) && (
        a == Cargo::Picture || va == vb),
{
    reveal_strlit("图片已发送");
    reveal_strlit("消息已发送");
    reveal_strlit("消息已发送 (未验证)");
    assert("图片已发送"@[0] == '图');
    assert("消息已发送"@[0] == '消' && "消息已发送"@.len() == 5);
    assert("消息已发送 (未验证)"@[0] == '消' && "消息已发送 (未验证)"@.len() == 11);
}

/// Only a click that opens a window, or a chat's own window that is gone, lets
/// the main window be unknown; only a window taken over adds a chat, and only a
/// window forgotten takes one out.
pub proof fn law_what_steps_change(
    current: Option<Seq<char>>,
    list: Seq<Seq<char>>,
    who: Seq<char>,
    a: AddStep,
    s: SendStep,
    e: UiEvent,
)
    ensures
        a is ForgetChat && e is Done ==> shown_after_add(current, a, e) is None,
        !(a is ForgetChat) || !(e is Done) ==> shown_after_add(current, a, e) == current,
        (s is Forget || s is ForgetChat) && e is Done ==> shown_after_send(current, s, e) is None,
        !(s is Forget || s is ForgetChat) || !(e is Done) ==> shown_after_send(current, s, e)
            == current,
        a is Adopt && e is Done ==> listening_after(list, who, a, e).contains(who),
        a is Forget && e is Done ==> !listening_after(list, who, a, e).contains(who),
        !(a is Adopt || a is Forget) || !(e is Done) ==> listening_after(list, who, a, e) == list,
        s is Forget && e is Done ==> !listening_after_send(list, who, s, e).contains(who),
        !(s is Forget) || !(e is Done) ==> listening_after_send(list, who, s, e) == list,
{
    config::lemma_one_name_in(list, who);
    config::lemma_one_name_out(list, who);
    assert(config::without(list, seq![who]).contains(who) <==> list.contains(who) && who != who);
}

} // verus!
