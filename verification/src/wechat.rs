//! The state kept about the chat program's windows.
use vstd::prelude::*;
use crate::cell;
use crate::chat::{ChatMessage, ItemView, WeChatStatus};
use crate::config;
use crate::text;

verus! {

/// How many marks of seen messages are kept before they are thinned out.
pub const SEEN_LIMIT: usize = 500;

/// How many marks are kept then.
pub const SEEN_KEPT: usize = 200;

/// What is known about the chat program's windows.
#[derive(Debug, Clone)]
pub struct WeChat {
    /// The marks of the messages seen in the main window, the latest last.
    pub seen_msg_ids: Vec<String>,
    /// The chats that have a window of their own.
    pub listening: Vec<String>,
    /// The chat that the main window shows, where that is known.
    pub current_chat: Option<String>,
    /// Messages found in chats' own windows and not yet fetched.
    pub pending: Vec<(String, Vec<ChatMessage>)>,
}

/// Whether no text occurs twice in a list.
pub open spec fn distinct(list: Seq<Seq<char>>) -> bool {
    forall|i: int, j: int| 0 <= i < j < list.len() ==> #[trigger] list[i] != #[trigger] list[j]
}

/// Whether no chat occurs twice among pending messages.
pub open spec fn distinct_chats(pending: Seq<(Seq<char>, Seq<ItemView>)>) -> bool {
    forall|i: int, j: int|
        0 <= i < j < pending.len() ==> #[trigger] pending[i].0 != #[trigger] pending[j].0
}

/// The messages whose marks are not among those seen, in order.
pub open spec fn unseen(msgs: Seq<ItemView>, seen: Seq<Seq<char>>) -> Seq<ItemView>
    decreases msgs.len(),
{
    if msgs.len() == 0 {
        Seq::empty()
    } else if seen.contains(msgs.last().msg_id) {
        unseen(msgs.drop_last(), seen)
    } else {
        unseen(msgs.drop_last(), seen).push(msgs.last())
    }
}

/// Marks with those of some messages added, each once.
pub open spec fn with_ids(seen: Seq<Seq<char>>, msgs: Seq<ItemView>) -> Seq<Seq<char>>
    decreases msgs.len(),
{
    if msgs.len() == 0 {
        seen
    } else {
        let before = with_ids(seen, msgs.drop_last());
        if before.contains(msgs.last().msg_id) {
            before
        } else {
            before.push(msgs.last().msg_id)
        }
    }
}

/// Marks once some messages have been shown: too many are thinned out to the
/// latest, and those of what is shown stay in any case.
pub open spec fn seen_after(seen: Seq<Seq<char>>, shown: Seq<ItemView>) -> Seq<Seq<char>> {
    let all = with_ids(seen, shown);
    if all.len() > SEEN_LIMIT {
        with_ids(all.skip(all.len() - SEEN_KEPT), shown)
    } else {
        all
    }
}

/// Pending messages of a chat.
pub open spec fn pending_of(
    pending: Seq<(Seq<char>, Seq<ItemView>)>,
    who: Seq<char>,
) -> Option<int>
    decreases pending.len(),
{
    if pending.len() == 0 {
        None
    } else if pending.last().0 == who {
        Some(pending.len() - 1)
    } else {
        pending_of(pending.drop_last(), who)
    }
}

/// Pending messages with those of one chat added behind its earlier ones.
pub open spec fn pending_with(
    pending: Seq<(Seq<char>, Seq<ItemView>)>,
    who: Seq<char>,
    msgs: Seq<ItemView>,
) -> Seq<(Seq<char>, Seq<ItemView>)> {
    match pending_of(pending, who) {
        Some(i) => pending.update(i, (who, pending[i].1 + msgs)),
        None => pending.push((who, msgs)),
    }
}

/// Pending messages with all that was collected added, chat by chat; a chat
/// without new messages adds nothing.
pub open spec fn pending_after(
    pending: Seq<(Seq<char>, Seq<ItemView>)>,
    collected: Seq<(Seq<char>, Seq<ItemView>)>,
) -> Seq<(Seq<char>, Seq<ItemView>)>
    decreases collected.len(),
{
    if collected.len() == 0 {
        pending
    } else {
        let before = pending_after(pending, collected.drop_last());
        if collected.last().1.len() == 0 {
            before
        } else {
            pending_with(before, collected.last().0, collected.last().1)
        }
    }
}

/// What was collected, without the chats that have no new messages.
pub open spec fn nonempty(
    collected: Seq<(Seq<char>, Seq<ItemView>)>,
) -> Seq<(Seq<char>, Seq<ItemView>)>
    decreases collected.len(),
{
    if collected.len() == 0 {
        Seq::empty()
    } else if collected.last().1.len() == 0 {
        nonempty(collected.drop_last())
    } else {
        nonempty(collected.drop_last()).push(collected.last())
    }
}

/// The view of messages by chat.
pub open spec fn by_chat(
    list: Seq<(String, Vec<ChatMessage>)>,
) -> Seq<(Seq<char>, Seq<ItemView>)> {
    Seq::new(list.len(), |i: int| (list[i].0@, cell::views_of(list[i].1@)))
}

/// A copy of some messages.
fn copy_messages(msgs: &Vec<ChatMessage>) -> (r: Vec<ChatMessage>)
    ensures
        cell::views_of(r@) == cell::views_of(msgs@),
{
    let mut r: Vec<ChatMessage> = Vec::new();
    append_messages(&mut r, msgs);
    assert(Seq::<ItemView>::empty() + cell::views_of(msgs@) =~= cell::views_of(msgs@));
    r
}

/// Appends copies of some messages to a list.
fn append_messages(list: &mut Vec<ChatMessage>, msgs: &Vec<ChatMessage>)
    ensures
        cell::views_of(final(list)@) == cell::views_of(old(list)@) + cell::views_of(msgs@),
{
    let ghost first = cell::views_of(list@);
    let ghost all = cell::views_of(msgs@);
    let mut i: usize = 0;
    assert(first + all.take(0) =~= first);
    while i < msgs.len()
        invariant
            0 <= i <= msgs@.len(),
            all == cell::views_of(msgs@),
            cell::views_of(list@) == first + all.take(i as int),
        decreases msgs@.len() - i,
    {
        let ghost before = list@;
        let m = msgs[i].copy();
        list.push(m);
        assert(cell::views_of(list@) =~= cell::views_of(before).push(m@));
        assert(first + all.take(i + 1) =~= (first + all.take(i as int)).push(m@));
        i += 1;
    }
    assert(all.take(all.len() as int) =~= all);
}

/// Adds the marks of some messages, each once.
fn add_ids(seen: &mut Vec<String>, msgs: &Vec<ChatMessage>)
    ensures
        text::views(final(seen)@) == with_ids(text::views(old(seen)@), cell::views_of(msgs@)),
{
    let ghost first = text::views(seen@);
    let ghost all = cell::views_of(msgs@);
    let mut i: usize = 0;
    while i < msgs.len()
        invariant
            0 <= i <= msgs@.len(),
            all == cell::views_of(msgs@),
            text::views(seen@) == with_ids(first, all.take(i as int)),
        decreases msgs@.len() - i,
    {
        assert(all.take(i + 1).drop_last() =~= all.take(i as int));
        assert(all.take(i + 1).last() == msgs@[i as int]@);
        let ghost before = seen@;
        if !text::in_list(seen, msgs[i].msg_id.as_str()) {
            seen.push(msgs[i].msg_id.clone());
            assert(text::views(seen@) =~= text::views(before).push(msgs@[i as int].msg_id@));
        }
        i += 1;
    }
    assert(all.take(all.len() as int) =~= all);
}

/// The last strings of a list.
fn last_of(list: &Vec<String>, n: usize) -> (r: Vec<String>)
    requires
        n <= list@.len(),
    ensures
        text::views(r@) == text::views(list@).skip(list@.len() - n),
{
    let mut r: Vec<String> = Vec::new();
    let ghost all = text::views(list@);
    let start: usize = list.len() - n;
    let mut i: usize = start;
    while i < list.len()
        invariant
            start <= i <= list@.len(),
            r@.len() == i - start,
            forall|j: int| 0 <= j < r@.len() ==> (#[trigger] r@[j])@ == list@[start + j]@,
        decreases list@.len() - i,
    {
        r.push(list[i].clone());
        i += 1;
    }
    assert(text::views(r@) =~= all.skip(list@.len() - n));
    r
}

/// How far the chat program is, by whether it was found and whether it shows the
/// bar that only a logged-in user has.
pub open spec fn status_of(app_found: bool, bar_found: bool) -> WeChatStatus {
    if !app_found {
        WeChatStatus::NotRunning
    } else if bar_found {
        WeChatStatus::LoggedIn
    } else {
        WeChatStatus::WaitingForLogin
    }
}

/// Whether nothing is wrong with the window of a chat: it is there, or nobody
/// listens to the chat.
pub open spec fn window_stands(listening: Seq<Seq<char>>, who: Seq<char>, alive: bool) -> bool {
    listening.contains(who) ==> alive
}

impl WeChat {
    /// Whether no mark, no chat listened to and no chat with pending messages
    /// occurs twice.
    pub open spec fn wf(&self) -> bool {
        &&& distinct(text::views(self.seen_msg_ids@))
        &&& distinct(text::views(self.listening@))
        &&& distinct_chats(by_chat(self.pending@))
    }

    /// A fresh state: nothing seen, nothing listened to.
    pub fn new() -> (r: WeChat)
        ensures
            r.wf(),
            r.seen_msg_ids@.len() == 0,
            r.listening@.len() == 0,
            r.current_chat is None,
            r.pending@.len() == 0,
    {
        WeChat {
            seen_msg_ids: Vec::new(),
            listening: Vec::new(),
            current_chat: None,
            pending: Vec::new(),
        }
    }

    /// How far the chat program is: whether it was found, and whether it shows
    /// its navigation bar.
    pub fn check_status(&self, app_found: bool, bar_found: bool) -> (r: WeChatStatus)
        ensures
            r == status_of(app_found, bar_found),
    {
        if !app_found {
            WeChatStatus::NotRunning
        } else if bar_found {
            WeChatStatus::LoggedIn
        } else {
            WeChatStatus::WaitingForLogin
        }
    }

    /// The chats that have a window of their own.
    pub fn get_listen_list(&self) -> (r: Vec<String>)
        ensures
            text::views(r@) == text::views(self.listening@),
    {
        text::copy_list(&self.listening)
    }

    /// Whether a chat has a window of its own.
    pub fn is_listening(&self, who: &str) -> (r: bool)
        ensures
            r == text::views(self.listening@).contains(who@),
    {
        text::in_list(&self.listening, who)
    }

    /// Whether the window of a chat is as it should be: it is alive, or the chat
    /// has none of its own. Where it is not, it is to be opened again.
    pub fn check_listen_window(&self, who: &str, alive: bool) -> (r: bool)
        ensures
            r == window_stands(text::views(self.listening@), who@, alive),
    {
        alive || !self.is_listening(who)
    }

    /// Notes that a chat has a window of its own.
    pub fn register(&mut self, who: &str)
        ensures
            old(self).wf() ==> final(self).wf(),
            text::views(final(self).listening@) == config::with_name(
                text::views(old(self).listening@),
                who@,
            ),
            final(self).seen_msg_ids == old(self).seen_msg_ids,
            final(self).current_chat == old(self).current_chat,
            final(self).pending == old(self).pending,
    {
        proof {
            if self.wf() {
                lemma_with_name(text::views(self.listening@), who@);
            }
        }
        self.listening = config::list_with(&self.listening, who);
    }

    /// Forgets the window of a chat.
    pub fn unregister(&mut self, who: &str)
        ensures
            old(self).wf() ==> final(self).wf(),
            text::views(final(self).listening@) == config::without(
                text::views(old(self).listening@),
                seq![who@],
            ),
            final(self).seen_msg_ids == old(self).seen_msg_ids,
            final(self).current_chat == old(self).current_chat,
            final(self).pending == old(self).pending,
    {
        proof {
            if self.wf() {
                lemma_without(text::views(self.listening@), seq![who@]);
            }
        }
        self.listening = config::list_without(&self.listening, who);
    }

    /// Stops listening to a chat; tells whether it was listened to. Its window
    /// is then to be closed, and what the main window shows is no longer known.
    pub fn remove_listen(&mut self, who: &str) -> (r: bool)
        ensures
            old(self).wf() ==> final(self).wf(),
            r == text::views(old(self).listening@).contains(who@),
            r ==> text::views(final(self).listening@) == config::without(
                text::views(old(self).listening@),
                seq![who@],
            ) && final(self).current_chat is None,
            !r ==> *final(self) == *old(self),
            final(self).seen_msg_ids == old(self).seen_msg_ids,
            final(self).pending == old(self).pending,
    {
        if !self.is_listening(who) {
            return false;
        }
        self.unregister(who);
        self.current_chat = None;
        true
    }

    /// Takes the messages that the main window shows; gives those not seen yet.
    pub fn get_new_messages(&mut self, all: &Vec<ChatMessage>) -> (r: Vec<ChatMessage>)
        ensures
            old(self).wf() ==> final(self).wf(),
            cell::views_of(r@) == unseen(
                cell::views_of(all@),
                text::views(old(self).seen_msg_ids@),
            ),
            text::views(final(self).seen_msg_ids@) == seen_after(
                text::views(old(self).seen_msg_ids@),
                cell::views_of(all@),
            ),
            final(self).listening == old(self).listening,
            final(self).current_chat == old(self).current_chat,
            final(self).pending == old(self).pending,
    {
        let mut fresh: Vec<ChatMessage> = Vec::new();
        let ghost views = cell::views_of(all@);
        let ghost seen = text::views(self.seen_msg_ids@);
        let mut i: usize = 0;
        assert(cell::views_of(fresh@) =~= unseen(views.take(0), seen));
        while i < all.len()
            invariant
                0 <= i <= all@.len(),
                views == cell::views_of(all@),
                seen == text::views(self.seen_msg_ids@),
                cell::views_of(fresh@) == unseen(views.take(i as int), seen),
            decreases all@.len() - i,
        {
            assert(views.take(i + 1).drop_last() =~= views.take(i as int));
            assert(views.take(i + 1).last() == all@[i as int]@);
            let ghost before = fresh@;
            if !text::in_list(&self.seen_msg_ids, all[i].msg_id.as_str()) {
                let m = all[i].copy();
                fresh.push(m);
                assert(cell::views_of(fresh@) =~= cell::views_of(before).push(m@));
            }
            i += 1;
        }
        assert(views.take(views.len() as int) =~= views);
        add_ids(&mut self.seen_msg_ids, all);
        assert(text::views(self.seen_msg_ids@).len() == self.seen_msg_ids@.len());
        if self.seen_msg_ids.len() > SEEN_LIMIT {
            let mut latest = last_of(&self.seen_msg_ids, SEEN_KEPT);
            add_ids(&mut latest, all);
            self.seen_msg_ids = latest;
        }
        proof {
            if distinct(seen) {
                law_shown_is_seen(seen, views);
            }
        }
        fresh
    }

    /// Takes the messages that the main window shows as seen, and no others.
    pub fn mark_all_read(&mut self, all: &Vec<ChatMessage>)
        ensures
            old(self).wf() ==> final(self).wf(),
            text::views(final(self).seen_msg_ids@) == with_ids(
                Seq::empty(),
                cell::views_of(all@),
            ),
            final(self).listening == old(self).listening,
            final(self).current_chat == old(self).current_chat,
            final(self).pending == old(self).pending,
    {
        let mut seen: Vec<String> = Vec::new();
        assert(text::views(seen@) =~= Seq::<Seq<char>>::empty());
        add_ids(&mut seen, all);
        proof {
            lemma_with_ids(Seq::empty(), cell::views_of(all@));
        }
        self.seen_msg_ids = seen;
    }

    /// Adds the messages of one chat to the pending ones.
    fn add_pending(&mut self, who: &str, msgs: &Vec<ChatMessage>)
        ensures
            old(self).wf() ==> final(self).wf(),
            by_chat(final(self).pending@) == pending_with(
                by_chat(old(self).pending@),
                who@,
                cell::views_of(msgs@),
            ),
            final(self).seen_msg_ids == old(self).seen_msg_ids,
            final(self).listening == old(self).listening,
            final(self).current_chat == old(self).current_chat,
    {
        let ghost all = by_chat(self.pending@);
        let ghost first = self.pending@;
        let mut n: usize = self.pending.len();
        proof {
            lemma_pending_with(all, who@, cell::views_of(msgs@));
        }
        assert(all.take(all.len() as int) =~= all);
        while n > 0
            invariant
                0 <= n <= self.pending@.len(),
                *self == *old(self),
                first == self.pending@,
                all == by_chat(first),
                pending_of(all, who@) == pending_of(all.take(n as int), who@),
            decreases n,
        {
            assert(all.take(n as int).last() == all[n - 1]);
            assert(all.take(n as int).drop_last() =~= all.take(n - 1));
            if text::same(self.pending[n - 1].0.as_str(), who) {
                let mut joined = copy_messages(&self.pending[n - 1].1);
                append_messages(&mut joined, msgs);
                self.pending.set(n - 1, (who.to_owned(), joined));
                assert(by_chat(self.pending@) =~= pending_with(all, who@, cell::views_of(msgs@)));
                return;
            }
            n -= 1;
        }
        self.pending.push((who.to_owned(), copy_messages(msgs)));
        assert(by_chat(self.pending@) =~= pending_with(all, who@, cell::views_of(msgs@)));
    }

    /// Takes what was found new in each chat's own window into the pending
    /// messages; gives it without the chats where nothing is new.
    pub fn get_listen_messages(&mut self, collected: &Vec<(String, Vec<ChatMessage>)>) -> (r: Vec<
        (String, Vec<ChatMessage>),
    >)
        ensures
            old(self).wf() ==> final(self).wf(),
            by_chat(r@) == nonempty(by_chat(collected@)),
            by_chat(final(self).pending@) == pending_after(
                by_chat(old(self).pending@),
                by_chat(collected@),
            ),
            final(self).seen_msg_ids == old(self).seen_msg_ids,
            final(self).listening == old(self).listening,
            final(self).current_chat == old(self).current_chat,
    {
        let mut r: Vec<(String, Vec<ChatMessage>)> = Vec::new();
        let ghost all = by_chat(collected@);
        let ghost first = by_chat(self.pending@);
        let mut i: usize = 0;
        assert(by_chat(r@) =~= nonempty(all.take(0)));
        while i < collected.len()
            invariant
                0 <= i <= collected@.len(),
                all == by_chat(collected@),
                by_chat(r@) == nonempty(all.take(i as int)),
                by_chat(self.pending@) == pending_after(first, all.take(i as int)),
                old(self).wf() ==> self.wf(),
                self.seen_msg_ids == old(self).seen_msg_ids,
                self.listening == old(self).listening,
                self.current_chat == old(self).current_chat,
            decreases collected@.len() - i,
        {
            assert(all.take(i + 1).drop_last() =~= all.take(i as int));
            assert(all.take(i + 1).last() == all[i as int]);
            assert(all[i as int].1.len() == collected@[i as int].1@.len());
            if collected[i].1.len() > 0 {
                let ghost before = r@;
                self.add_pending(collected[i].0.as_str(), &collected[i].1);
                let item = (collected[i].0.clone(), copy_messages(&collected[i].1));
                r.push(item);
                assert(by_chat(r@) =~= by_chat(before).push(all[i as int]));
            }
            i += 1;
        }
        assert(all.take(all.len() as int) =~= all);
        r
    }

    /// Takes the pending messages out.
    pub fn take_pending_messages(&mut self) -> (r: Vec<(String, Vec<ChatMessage>)>)
        ensures
            old(self).wf() ==> final(self).wf(),
            r == old(self).pending,
            final(self).pending@.len() == 0,
            final(self).seen_msg_ids == old(self).seen_msg_ids,
            final(self).listening == old(self).listening,
            final(self).current_chat == old(self).current_chat,
    {
        let mut r: Vec<(String, Vec<ChatMessage>)> = Vec::new();
        std::mem::swap(&mut r, &mut self.pending);
        assert(by_chat(self.pending@) =~= Seq::empty());
        r
    }
}

proof fn lemma_with_name(list: Seq<Seq<char>>, who: Seq<char>)
    requires
        distinct(list),
    ensures
        distinct(config::with_name(list, who)),
{
}

proof fn lemma_without(list: Seq<Seq<char>>, other: Seq<Seq<char>>)
    requires
        distinct(list),
    ensures
        distinct(config::without(list, other)),
        forall|s: Seq<char>| #[trigger]
            config::without(list, other).contains(s) ==> list.contains(s),
    decreases list.len(),
{
    if list.len() > 0 {
        let t = list.drop_last();
        assert forall|i: int, j: int| 0 <= i < j < t.len() implies #[trigger] t[i]
            != #[trigger] t[j] by {
            assert(list[i] == t[i] && list[j] == t[j]);
        }
        lemma_without(t, other);
        let k = config::without(t, other);
        let r = config::without(list, other);
        assert forall|s: Seq<char>| #[trigger] r.contains(s) implies list.contains(s) by {
            let i = choose|i: int| 0 <= i < r.len() && r[i] == s;
            if i < k.len() {
                assert(k[i] == s);
                assert(k.contains(s));
                let j = choose|j: int| 0 <= j < t.len() && t[j] == s;
                assert(list[j] == s);
            } else {
                assert(list[list.len() - 1] == s);
            }
        }
        assert forall|i: int, j: int| 0 <= i < j < r.len() implies #[trigger] r[i]
            != #[trigger] r[j] by {
            if j < k.len() {
                assert(k[i] == r[i] && k[j] == r[j]);
            } else {
                assert(k[i] == r[i]);
                assert(k.contains(k[i]));
                let m = choose|m: int| 0 <= m < t.len() && t[m] == k[i];
                assert(list[m] != list[list.len() - 1]);
            }
        }
    }
}

proof fn lemma_pending_of(pending: Seq<(Seq<char>, Seq<ItemView>)>, who: Seq<char>)
    ensures
        match pending_of(pending, who) {
            Some(i) => 0 <= i < pending.len() && pending[i].0 == who,
            None => forall|i: int| 0 <= i < pending.len() ==> (#[trigger] pending[i]).0 != who,
        },
    decreases pending.len(),
{
    if pending.len() > 0 && pending.last().0 != who {
        let t = pending.drop_last();
        lemma_pending_of(t, who);
        match pending_of(t, who) {
            Some(i) => {
                assert(pending[i] == t[i]);
            },
            None => {
                assert forall|i: int| 0 <= i < pending.len() implies (#[trigger] pending[i]).0
                    != who by {
                    if i < t.len() {
                        assert(t[i] == pending[i]);
                    }
                }
            },
        }
    }
}

proof fn lemma_pending_with(
    pending: Seq<(Seq<char>, Seq<ItemView>)>,
    who: Seq<char>,
    msgs: Seq<ItemView>,
)
    ensures
        distinct_chats(pending) ==> distinct_chats(pending_with(pending, who, msgs)),
{
    lemma_pending_of(pending, who);
    if distinct_chats(pending) {
        let r = pending_with(pending, who, msgs);
        assert forall|i: int, j: int| 0 <= i < j < r.len() implies #[trigger] r[i].0
            != #[trigger] r[j].0 by {
            if i < pending.len() {
                assert(r[i].0 == pending[i].0);
            }
            if j < pending.len() {
                assert(r[j].0 == pending[j].0);
            }
        }
    }
}

// ---------------------------------------------------------------------
// Laws
// ---------------------------------------------------------------------

proof fn lemma_with_ids(seen: Seq<Seq<char>>, msgs: Seq<ItemView>)
    ensures
        forall|id: Seq<char>| #[trigger]
            seen.contains(id) ==> with_ids(seen, msgs).contains(id),
        forall|i: int|
            0 <= i < msgs.len() ==> with_ids(seen, msgs).contains((#[trigger] msgs[i]).msg_id),
        distinct(seen) ==> distinct(with_ids(seen, msgs)),
        seen.len() <= with_ids(seen, msgs).len() <= seen.len() + msgs.len(),
    decreases msgs.len(),
{
    if msgs.len() > 0 {
        let t = msgs.drop_last();
        let before = with_ids(seen, t);
        let all = with_ids(seen, msgs);
        lemma_with_ids(seen, t);
        if !before.contains(msgs.last().msg_id) {
            assert(all[all.len() - 1] == msgs.last().msg_id);
            assert forall|id: Seq<char>| #[trigger] before.contains(id) implies all.contains(
                id,
            ) by {
                let k = choose|k: int| 0 <= k < before.len() && before[k] == id;
                assert(all[k] == id);
            }
        }
        assert forall|i: int| 0 <= i < msgs.len() implies all.contains(
            (#[trigger] msgs[i]).msg_id,
        ) by {
            if i < t.len() {
                assert(t[i] == msgs[i]);
                assert(before.contains(t[i].msg_id));
            }
        }
    }
}

/// Everything shown is seen afterwards, and no mark is kept twice; at most so
/// many marks are kept as the limit allows, or as what is shown and the latest
/// marks make.
pub proof fn law_shown_is_seen(seen: Seq<Seq<char>>, shown: Seq<ItemView>)
    requires
        distinct(seen),
    ensures
        forall|i: int|
            0 <= i < shown.len() ==> seen_after(seen, shown).contains(
                (#[trigger] shown[i]).msg_id,
            ),
        distinct(seen_after(seen, shown)),
        seen_after(seen, shown).len() <= SEEN_LIMIT || seen_after(seen, shown).len() <= SEEN_KEPT
            + shown.len(),
{
    let all = with_ids(seen, shown);
    lemma_with_ids(seen, shown);
    if all.len() > SEEN_LIMIT {
        let latest = all.skip(all.len() - SEEN_KEPT);
        assert(distinct(latest)) by {
            assert forall|i: int, j: int| 0 <= i < j < latest.len() implies #[trigger] latest[i]
                != #[trigger] latest[j] by {
                assert(latest[i] == all[all.len() - SEEN_KEPT + i]);
                assert(latest[j] == all[all.len() - SEEN_KEPT + j]);
            }
        }
        lemma_with_ids(latest, shown);
    }
}

proof fn lemma_unseen(msgs: Seq<ItemView>, seen: Seq<Seq<char>>)
    ensures
        forall|i: int|
            0 <= i < unseen(msgs, seen).len() ==> !seen.contains(
                (#[trigger] unseen(msgs, seen)[i]).msg_id,
            ),
    decreases msgs.len(),
{
    if msgs.len() > 0 {
        lemma_unseen(msgs.drop_last(), seen);
        let before = unseen(msgs.drop_last(), seen);
        let all = unseen(msgs, seen);
        assert forall|i: int| 0 <= i < all.len() implies !seen.contains(
            (#[trigger] all[i]).msg_id,
        ) by {
            if i < before.len() {
                assert(all[i] == before[i]);
            }
        }
    }
}

/// Nothing that was shown is new the next time, whether it was new before or
/// not, and also where the marks were thinned out in between.
pub proof fn law_new_only_once(
    shown: Seq<ItemView>,
    seen: Seq<Seq<char>>,
    later: Seq<ItemView>,
    i: int,
    j: int,
)
    requires
        distinct(seen),
        0 <= i < shown.len(),
        0 <= j < unseen(later, seen_after(seen, shown)).len(),
    ensures
        shown[i].msg_id != unseen(later, seen_after(seen, shown))[j].msg_id,
{
    law_shown_is_seen(seen, shown);
    lemma_unseen(later, seen_after(seen, shown));
    assert(seen_after(seen, shown).contains(shown[i].msg_id));
}

/// As long as the window shows the same, nothing more is new.
pub proof fn law_same_window_gives_nothing(shown: Seq<ItemView>, seen: Seq<Seq<char>>)
    requires
        distinct(seen),
    ensures
        unseen(shown, seen_after(seen, shown)).len() == 0,
{
    law_shown_is_seen(seen, shown);
    lemma_all_seen(shown, seen_after(seen, shown), shown.len() as int);
    assert(shown.take(shown.len() as int) =~= shown);
}

/// Once everything shown is marked as read, nothing shown is new.
pub proof fn law_marked_is_not_new(msgs: Seq<ItemView>)
    ensures
        unseen(msgs, with_ids(Seq::empty(), msgs)).len() == 0,
{
    let seen = with_ids(Seq::empty(), msgs);
    lemma_with_ids(Seq::empty(), msgs);
    lemma_all_seen(msgs, seen, msgs.len() as int);
    assert(msgs.take(msgs.len() as int) =~= msgs);
}

proof fn lemma_all_seen(msgs: Seq<ItemView>, seen: Seq<Seq<char>>, n: int)
    requires
        0 <= n <= msgs.len(),
        forall|i: int| 0 <= i < msgs.len() ==> seen.contains((#[trigger] msgs[i]).msg_id),
    ensures
        unseen(msgs.take(n), seen).len() == 0,
    decreases n,
{
    if n > 0 {
        lemma_all_seen(msgs, seen, n - 1);
        assert(msgs.take(n).drop_last() =~= msgs.take(n - 1));
        assert(msgs.take(n).last() == msgs[n - 1]);
    }
}

/// All messages of a chat in a list by chat, in order.
pub open spec fn messages_for(
    list: Seq<(Seq<char>, Seq<ItemView>)>,
    who: Seq<char>,
) -> Seq<ItemView>
    decreases list.len(),
{
    if list.len() == 0 {
        Seq::empty()
    } else if list.last().0 == who {
        messages_for(list.drop_last(), who) + list.last().1
    } else {
        messages_for(list.drop_last(), who)
    }
}

proof fn lemma_messages_of_other(
    list: Seq<(Seq<char>, Seq<ItemView>)>,
    i: int,
    e: (Seq<char>, Seq<ItemView>),
    who: Seq<char>,
)
    requires
        0 <= i < list.len(),
        list[i].0 != who,
        e.0 != who,
    ensures
        messages_for(list.update(i, e), who) == messages_for(list, who),
    decreases list.len(),
{
    let u = list.update(i, e);
    if i == list.len() - 1 {
        assert(u.drop_last() =~= list.drop_last());
    } else {
        assert(u.drop_last() =~= list.drop_last().update(i, e));
        lemma_messages_of_other(list.drop_last(), i, e, who);
    }
}

proof fn lemma_messages_of_none(list: Seq<(Seq<char>, Seq<ItemView>)>, who: Seq<char>)
    requires
        forall|i: int| 0 <= i < list.len() ==> (#[trigger] list[i]).0 != who,
    ensures
        messages_for(list, who).len() == 0,
    decreases list.len(),
{
    if list.len() > 0 {
        let t = list.drop_last();
        assert forall|i: int| 0 <= i < t.len() implies (#[trigger] t[i]).0 != who by {
            assert(t[i] == list[i]);
        }
        assert(list[list.len() - 1].0 != who);
        lemma_messages_of_none(t, who);
    }
}

proof fn lemma_messages_of_one(list: Seq<(Seq<char>, Seq<ItemView>)>, i: int)
    requires
        distinct_chats(list),
        0 <= i < list.len(),
    ensures
        messages_for(list, list[i].0) == list[i].1,
    decreases list.len(),
{
    let who = list[i].0;
    let t = list.drop_last();
    assert forall|a: int, b: int| 0 <= a < b < t.len() implies #[trigger] t[a].0
        != #[trigger] t[b].0 by {
        assert(list[a].0 != list[b].0);
    }
    if i == list.len() - 1 {
        assert forall|k: int| 0 <= k < t.len() implies (#[trigger] t[k]).0 != who by {
            assert(list[k].0 != list[i].0);
        }
        lemma_messages_of_none(t, who);
        assert(messages_for(list, who) =~= list[i].1);
    } else {
        assert(list[i].0 != list[list.len() - 1].0);
        lemma_messages_of_one(t, i);
    }
}

proof fn lemma_messages_with(
    pending: Seq<(Seq<char>, Seq<ItemView>)>,
    chat: Seq<char>,
    msgs: Seq<ItemView>,
    who: Seq<char>,
)
    requires
        distinct_chats(pending),
    ensures
        distinct_chats(pending_with(pending, chat, msgs)),
        messages_for(pending_with(pending, chat, msgs), who) == messages_for(pending, who) + (
        if chat == who {
            msgs
        } else {
            Seq::empty()
        }),
{
    let r = pending_with(pending, chat, msgs);
    lemma_pending_with(pending, chat, msgs);
    lemma_pending_of(pending, chat);
    match pending_of(pending, chat) {
        Some(i) => {
            if chat == who {
                lemma_messages_of_one(pending, i);
                lemma_messages_of_one(r, i);
            } else {
                lemma_messages_of_other(pending, i, (chat, pending[i].1 + msgs), who);
                assert(messages_for(pending, who) + Seq::<ItemView>::empty() =~= messages_for(
                    pending,
                    who,
                ));
            }
        },
        None => {
            assert(r.drop_last() =~= pending);
            if chat != who {
                assert(messages_for(pending, who) + Seq::<ItemView>::empty() =~= messages_for(
                    pending,
                    who,
                ));
            }
        },
    }
}

/// No message found in a chat's own window is lost before it is fetched, and
/// none changes its place: what is pending for a chat is what was pending
/// before and then what was found, in order.
pub proof fn law_pending_keeps_all(
    pending: Seq<(Seq<char>, Seq<ItemView>)>,
    collected: Seq<(Seq<char>, Seq<ItemView>)>,
    who: Seq<char>,
)
    requires
        distinct_chats(pending),
    ensures
        distinct_chats(pending_after(pending, collected)),
        messages_for(pending_after(pending, collected), who) == messages_for(pending, who)
            + messages_for(collected, who),
    decreases collected.len(),
{
    if collected.len() == 0 {
        assert(messages_for(pending, who) + Seq::<ItemView>::empty() =~= messages_for(
            pending,
            who,
        ));
    } else {
        let t = collected.drop_last();
        let last = collected.last();
        law_pending_keeps_all(pending, t, who);
        let before = pending_after(pending, t);
        if last.1.len() > 0 {
            lemma_messages_with(before, last.0, last.1, who);
        }
        assert(messages_for(pending_after(pending, collected), who) =~= messages_for(pending, who)
            + messages_for(collected, who));
    }
}

/// A program that is not found does not run, whatever else was found; one that
/// is found is logged in exactly where the bar was found.
pub proof fn law_status_needs_the_program(app_found: bool, bar_found: bool)
    ensures
        status_of(app_found, bar_found) == WeChatStatus::NotRunning <==> !app_found,
        status_of(app_found, bar_found) == WeChatStatus::LoggedIn <==> app_found && bar_found,
{
}

/// Something is wrong with a window exactly where it is gone and the chat is
/// listened to.
pub proof fn law_only_lost_windows_are_wrong(listening: Seq<Seq<char>>, who: Seq<char>, alive: bool)
    ensures
        !window_stands(listening, who, alive) <==> !alive && listening.contains(who),
{
}

/// Every message shown that was not seen is new, in the order of the window, and
/// no other.
pub proof fn law_new_messages_one_by_one(
    a: Seq<ItemView>,
    b: Seq<ItemView>,
    m: ItemView,
    seen: Seq<Seq<char>>,
)
    ensures
        unseen(a + b, seen) == unseen(a, seen) + unseen(b, seen),
        seen.contains(m.msg_id) ==> unseen(seq![m], seen) == Seq::<ItemView>::empty(),
        !seen.contains(m.msg_id) ==> unseen(seq![m], seen) == seq![m],
        unseen(Seq::empty(), seen) == Seq::<ItemView>::empty(),
    decreases b.len(),
{
    reveal_with_fuel(unseen, 2);
    assert(seq![m].drop_last() =~= Seq::empty());
    if b.len() == 0 {
        assert(a + b =~= a);
        assert(unseen(a, seen) + unseen(b, seen) =~= unseen(a, seen));
    } else {
        law_new_messages_one_by_one(a, b.drop_last(), m, seen);
        assert((a + b).drop_last() =~= a + b.drop_last());
        assert((a + b).last() == b.last());
        assert(unseen(a + b, seen) =~= unseen(a, seen) + unseen(b, seen));
    }
}

/// What is remembered was seen before or is shown now; nothing is forgotten
/// while there are no more than five hundred, and the last two hundred stay in
/// any case.
pub proof fn law_memory_is_true_and_lasts(seen: Seq<Seq<char>>, shown: Seq<ItemView>, id: Seq<char>)
    ensures
        seen_after(seen, shown).contains(id) ==> seen.contains(id) || exists|i: int|
            0 <= i < shown.len() && (#[trigger] shown[i]).msg_id == id,
        with_ids(seen, shown).len() <= 500 && seen.contains(id) ==> seen_after(
            seen,
            shown,
        ).contains(id),
        forall|k: int|
            0 <= k < with_ids(seen, shown).len() && k >= with_ids(seen, shown).len() - 200
                ==> seen_after(seen, shown).contains(#[trigger] with_ids(seen, shown)[k]),
{
    let all = with_ids(seen, shown);
    lemma_with_ids(seen, shown);
    lemma_ids_are_known(seen, shown, id);
    assert forall|k: int| 0 <= k < all.len() && k >= all.len() - 200 implies seen_after(
        seen,
        shown,
    ).contains(#[trigger] all[k]) by {
        if all.len() > SEEN_LIMIT {
            let latest = all.skip(all.len() - SEEN_KEPT);
            assert(latest[k - (all.len() - SEEN_KEPT)] == all[k]);
            assert(latest.contains(all[k]));
            lemma_with_ids(latest, shown);
        } else {
            assert(all.contains(all[k]));
        }
    }
    if all.len() > SEEN_LIMIT && seen_after(seen, shown).contains(id) {
        let latest = all.skip(all.len() - SEEN_KEPT);
        lemma_ids_are_known(latest, shown, id);
        if latest.contains(id) {
            let k = choose|k: int| 0 <= k < latest.len() && latest[k] == id;
            assert(all[all.len() - SEEN_KEPT + k] == id);
        }
    }
}

proof fn lemma_ids_are_known(seen: Seq<Seq<char>>, msgs: Seq<ItemView>, id: Seq<char>)
    ensures
        with_ids(seen, msgs).contains(id) ==> seen.contains(id) || exists|i: int|
            0 <= i < msgs.len() && (#[trigger] msgs[i]).msg_id == id,
    decreases msgs.len(),
{
    if msgs.len() > 0 && with_ids(seen, msgs).contains(id) {
        let t = msgs.drop_last();
        let before = with_ids(seen, t);
        lemma_ids_are_known(seen, t, id);
        let all = with_ids(seen, msgs);
        let k = choose|k: int| 0 <= k < all.len() && all[k] == id;
        if k < before.len() {
            assert(before[k] == id);
            assert(before.contains(id));
            if !seen.contains(id) {
                let i = choose|i: int| 0 <= i < t.len() && (#[trigger] t[i]).msg_id == id;
                assert(msgs[i].msg_id == id);
            }
        } else {
            assert(msgs[msgs.len() - 1].msg_id == id);
        }
    }
}

/// Of what was collected every chat with messages is told, in order and as it
/// is, and no chat without any.
pub proof fn law_chats_with_messages_one_by_one(
    a: Seq<(Seq<char>, Seq<ItemView>)>,
    b: Seq<(Seq<char>, Seq<ItemView>)>,
    e: (Seq<char>, Seq<ItemView>),
)
    ensures
        nonempty(a + b) == nonempty(a) + nonempty(b),
        e.1.len() == 0 ==> nonempty(seq![e]) == Seq::<(Seq<char>, Seq<ItemView>)>::empty(),
        e.1.len() > 0 ==> nonempty(seq![e]) == seq![e],
        nonempty(Seq::empty()) == Seq::<(Seq<char>, Seq<ItemView>)>::empty(),
    decreases b.len(),
{
    reveal_with_fuel(nonempty, 2);
    assert(seq![e].drop_last() =~= Seq::empty());
    if b.len() == 0 {
        assert(a + b =~= a);
        assert(nonempty(a) + nonempty(b) =~= nonempty(a));
    } else {
        law_chats_with_messages_one_by_one(a, b.drop_last(), e);
        assert((a + b).drop_last() =~= a + b.drop_last());
        assert((a + b).last() == b.last());
        assert(nonempty(a + b) =~= nonempty(a) + nonempty(b));
    }
}

} // verus!
