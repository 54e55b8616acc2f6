use std::collections::hash_map::DefaultHasher;
use std::hash::{Hash, Hasher};

use mimicwx::chat::{
    classify_message, extract_content, find_button, generate_msg_id, is_time_text, is_wechat,
    is_wechat_lowered, is_wechat_main, is_wechat_main_lowered, parse_message_item, ChatMessage, ChatMessageChild,
    WeChatStatus,
};
use mimicwx::flows::{
    add_reply, chat_reply, main_title, send_reply, title_bar_of, AddEnd, AddStep, AppStep, Cargo, ChatEnd, ChatStep, FocusStep, Rect, SendEnd,
    SendStep, UiEvent, VerifyStep,
};
use mimicwx::hunt::{DeepSearch, WideSearch};
use mimicwx::reading::{
    name_shows, read_messages, read_sessions, read_tail, verify_sent_in_list, Reading,
};
use mimicwx::replies::{AddReply, ChatReply, SendReply};
use mimicwx::runtime::{
    await_key, choose_db_dir, dirs_or_home, fetches, read_key, search_dirs, DirChoice, HeartAction, Heartbeat, KeyFile,
    LoginAction, LoginWait, WalSignal,
};
use mimicwx::tree::{
    is_edit_box, is_message_list, is_nav_toolbar, is_session_list, is_split_pane, ChildSearch, NodeInfo, TreeAnswer,
    TreeQuestion, Wanted,
};
use mimicwx::wechat::WeChat;

fn child(role: &str, name: &str) -> ChatMessageChild {
    ChatMessageChild { role: role.to_string(), name: name.to_string() }
}

struct Node {
    role: &'static str,
    name: String,
    structural: bool,
    kids: Vec<usize>,
}

struct Forest {
    nodes: Vec<Node>,
    asked: usize,
}

impl Forest {
    fn new() -> Forest {
        Forest { nodes: Vec::new(), asked: 0 }
    }

    fn put(&mut self, role: &'static str, name: &str, structural: bool, kids: Vec<usize>) -> usize {
        self.nodes.push(Node { role, name: name.to_string(), structural, kids });
        self.nodes.len() - 1
    }

    fn answer(&mut self, q: TreeQuestion) -> Option<TreeAnswer> {
        self.asked += 1;
        match q {
            TreeQuestion::Count { node } => Some(TreeAnswer::Count(self.nodes[node as usize].kids.len() as i32)),
            TreeQuestion::Child { node, index } => {
                let id = self.nodes[node as usize].kids[index as usize];
                let n = &self.nodes[id];
                if n.role == "gone" {
                    return Some(TreeAnswer::Child(None));
                }
                Some(TreeAnswer::Child(Some(NodeInfo {
                    id: id as u64,
                    role: n.role.to_string(),
                    name: n.name.clone(),
                    structural: n.structural,
                })))
            }
            TreeQuestion::Nothing => None,
        }
    }

    fn search(&mut self, mut s: ChildSearch) -> Option<(u64, i32)> {
        while let Some(a) = self.answer(s.question()) {
            s.answer(a);
        }
        s.found.map(|f| (f.0.id, f.1))
    }

    fn wide(&mut self, mut s: WideSearch) -> Option<u64> {
        while let Some(a) = self.answer(s.question()) {
            s.answer(a);
        }
        s.found
    }

    fn deep(&mut self, mut s: DeepSearch) -> Option<u64> {
        while let Some(a) = self.answer(s.question()) {
            s.answer(a);
        }
        s.found
    }

    fn session(&mut self, container: usize, name: &str) -> Option<u64> {
        self.wide(WeChat::new().find_session(container as u64, name))
    }

    fn window(&mut self, app: usize, registry: Option<usize>, who: &str) -> Option<u64> {
        let mut s = WeChat::new().find_chat_window(app as u64, registry.map(|r| r as u64), who);
        while let Some(a) = self.answer(s.question()) {
            s.answer(a);
        }
        s.found.map(|n| n.id)
    }

    fn read(&mut self, mut r: Reading) -> Reading {
        while let Some(a) = self.answer(r.question()) {
            r.answer(a);
        }
        r
    }
}

#[test]
fn the_status_follows_the_windows() {
    let w = WeChat::new();
    assert_eq!(w.check_status(false, true).text(), "未运行");
    assert_eq!(w.check_status(true, false).text(), "等待扫码登录");
    assert_eq!(w.check_status(true, true).text(), "已登录");
}

#[test]
fn names_of_the_program_are_known() {
    assert!(is_wechat("WeChat"));
    assert!(is_wechat("com.Tencent.WEIXIN"));
    assert!(is_wechat("微信 (2)"));
    assert!(!is_wechat("firefox"));
    assert!(is_wechat_main("WECHAT"));
    assert!(is_wechat_main("Weixin"));
    assert!(is_wechat_main("微信"));
    assert!(!is_wechat_main("微信 群"));
    assert!(is_wechat_lowered("X", "my wechat"));
    assert!(!is_wechat_lowered("WeChat", "x"));
    assert!(is_wechat_main_lowered("X", "wechat"));
    assert!(!is_wechat_main_lowered("WeChat", "WeChat"));
}

#[test]
fn times_are_told_from_texts() {
    for s in ["14:30", "下午 2:30", "2026/3/1 14:30", "昨天", "星期三", "2026年3月1日", " Monday ", "Yesterday"] {
        assert!(is_time_text(s), "{}", s);
    }
    for s in ["", "  ", "a:b", "1:b", "hello", "年", "今天的会议在14:30开始请大家准时参加"] {
        assert!(!is_time_text(s), "{}", s);
    }
}

#[test]
fn messages_are_classified() {
    let kinds = |name: &str, kids: Vec<ChatMessageChild>| {
        let button = find_button(&kids);
        let (t, s, c) = classify_message(name, &kids, button.is_some(), button.as_deref().unwrap_or(""));
        (t, s, c)
    };
    let text = |a: &str, b: &str, c: &str| (a.to_string(), b.to_string(), c.to_string());
    assert_eq!(kinds("14:30", vec![]), text("time", "SYS", "14:30"));
    assert_eq!(kinds("你撤回了一条消息", vec![]), text("recall", "SYS", "你撤回了一条消息"));
    assert_eq!(kinds("joined", vec![child("push button", "")]), text("sys", "SYS", "joined"));
    assert_eq!(
        kinds("n", vec![child("push button", "甲"), child("label", ""), child("text", "hi"), child("push button", "乙")]),
        text("friend", "乙", "hi")
    );
    assert_eq!(kinds("n", vec![child("push button", "甲")]), text("friend", "甲", "n"));
    assert_eq!(extract_content(&vec![child("filler", "x"), child("label", "y")], "f"), "y");
    assert_eq!(extract_content(&vec![], "f"), "f");
}

#[test]
fn message_marks_are_those_of_a_hashed_tuple() {
    for (index, a, b, c) in [(0, "friend", "甲", "hi"), (7, "sys", "SYS", ""), (-7, "time", "SYS", "14:30"), (i32::MIN, "", "", "x")] {
        let mut h = DefaultHasher::new();
        (index / 3, a, b, c).hash(&mut h);
        assert_eq!(generate_msg_id(index, a, b, c), format!("{:016x}", h.finish()));
    }
    assert_eq!(generate_msg_id(3, "a", "b", "c"), generate_msg_id(5, "a", "b", "c"));
    assert_ne!(generate_msg_id(2, "a", "b", "c"), generate_msg_id(3, "a", "b", "c"));
    let m = parse_message_item(4, "list item", "n", vec![child("push button", "甲"), child("label", "hi")]);
    assert_eq!(m.msg_id, generate_msg_id(4, "friend", "甲", "hi"));
    assert_eq!((m.index, m.role.as_str(), m.content.as_str()), (4, "list item", "hi"));
}

fn message(id: &str) -> ChatMessage {
    ChatMessage {
        index: 0,
        role: String::new(),
        name: String::new(),
        children: Vec::new(),
        msg_id: id.to_string(),
        msg_type: "friend".to_string(),
        sender: String::new(),
        content: id.to_string(),
    }
}

#[test]
fn new_messages_are_given_once() {
    let mut w = WeChat::new();
    let shown = vec![message("a"), message("b"), message("a")];
    assert_eq!(w.get_new_messages(&shown).len(), 3);
    assert_eq!(w.seen_msg_ids, vec!["a", "b"]);
    assert_eq!(w.get_new_messages(&shown).len(), 0);
    let more = vec![message("b"), message("c")];
    let new: Vec<String> = w.get_new_messages(&more).into_iter().map(|m| m.msg_id).collect();
    assert_eq!(new, vec!["c"]);
}

#[test]
fn seen_marks_are_thinned_out() {
    let mut w = WeChat::new();
    for k in 0..5 {
        let batch: Vec<ChatMessage> = (0..100).map(|i| message(&format!("{}-{}", k, i))).collect();
        assert_eq!(w.get_new_messages(&batch).len(), 100);
    }
    assert_eq!(w.seen_msg_ids.len(), 500);
    assert_eq!(w.get_new_messages(&vec![message("last")]).len(), 1);
    assert_eq!(w.seen_msg_ids.len(), 200);
    assert_eq!(w.seen_msg_ids[199], "last");
    assert_eq!(w.seen_msg_ids[0], "3-1");
    assert_eq!(w.get_new_messages(&vec![message("last"), message("0-0")]).len(), 1);
}

#[test]
fn what_stays_shown_stays_seen() {
    let mut w = WeChat::new();
    let mut shown = vec![message("old")];
    assert_eq!(w.get_new_messages(&shown).len(), 1);
    for i in 0..500 {
        shown.push(message(&format!("{}", i)));
    }
    assert_eq!(w.get_new_messages(&shown).len(), 500);
    assert_eq!(w.seen_msg_ids.len(), 501);
    assert_eq!(w.get_new_messages(&shown).len(), 0);
    let mut w = WeChat::new();
    w.get_new_messages(&vec![message("old")]);
    for k in 0..600 {
        let new = w.get_new_messages(&vec![message("old"), message(&format!("{}", k))]);
        assert_eq!(new.len(), 1);
        assert_eq!(new[0].msg_id, format!("{}", k));
        assert!(w.seen_msg_ids.len() <= 500);
    }
}

#[test]
fn lost_windows_are_noticed() {
    let mut w = WeChat::new();
    assert!(w.check_listen_window("甲", false));
    w.register("甲");
    assert!(!w.check_listen_window("甲", false));
    assert!(w.check_listen_window("甲", true));
    assert!(w.check_listen_window("乙", false));
}

#[test]
fn marked_messages_are_not_new() {
    let mut w = WeChat::new();
    w.get_new_messages(&vec![message("old")]);
    let shown = vec![message("a"), message("b")];
    w.mark_all_read(&shown);
    assert_eq!(w.get_new_messages(&shown).len(), 0);
    assert_eq!(w.seen_msg_ids, vec!["a", "b"]);
}

#[test]
fn listened_messages_wait_to_be_fetched() {
    let mut w = WeChat::new();
    let found = w.get_listen_messages(&vec![
        ("甲".to_string(), vec![message("1")]),
        ("乙".to_string(), vec![]),
    ]);
    assert_eq!(found.len(), 1);
    w.get_listen_messages(&vec![("丙".to_string(), vec![message("2")]), ("甲".to_string(), vec![message("3")])]);
    let pending = w.take_pending_messages();
    let shape: Vec<(String, usize)> = pending.iter().map(|p| (p.0.clone(), p.1.len())).collect();
    assert_eq!(shape, vec![("甲".to_string(), 2), ("丙".to_string(), 1)]);
    assert!(w.take_pending_messages().is_empty());
}

#[test]
fn pending_messages_keep_their_order() {
    let mut w = WeChat::new();
    let batch = |who: &str, ids: &[&str]| (who.to_string(), ids.iter().map(|id| message(id)).collect::<Vec<_>>());
    w.get_listen_messages(&vec![batch("甲", &["1", "2"]), batch("乙", &["a"])]);
    w.get_listen_messages(&vec![batch("乙", &["b"]), batch("甲", &[]), batch("甲", &["3"])]);
    let pending = w.take_pending_messages();
    let of = |who: &str| -> Vec<String> {
        pending.iter().filter(|p| p.0 == who).flat_map(|p| p.1.iter().map(|m| m.msg_id.clone())).collect()
    };
    assert_eq!(of("甲"), vec!["1", "2", "3"]);
    assert_eq!(of("乙"), vec!["a", "b"]);
}

#[test]
fn chats_are_listened_to_and_left() {
    let mut w = WeChat::new();
    w.register("甲");
    w.register("甲");
    w.register("乙");
    assert_eq!(w.get_listen_list(), vec!["甲", "乙"]);
    w.current_chat = Some("乙".to_string());
    assert!(!w.remove_listen("丙"));
    assert_eq!(w.current_chat, Some("乙".to_string()));
    assert!(w.remove_listen("甲"));
    assert_eq!(w.current_chat, None);
    assert!(!w.is_listening("甲"));
    w.forget_window("乙");
    assert!(w.get_listen_list().is_empty());
}

#[test]
fn parts_of_the_window_are_known() {
    assert!(is_nav_toolbar("tool bar", "导航"));
    assert!(is_nav_toolbar("tool bar", "Navigation bar"));
    assert!(!is_nav_toolbar("list", "导航"));
    assert!(is_split_pane("splitter") && is_split_pane("split pane") && !is_split_pane("list"));
    assert!(is_session_list("list", "Chats") && is_session_list("list", "会话列表") && !is_session_list("list", "x"));
    assert!(is_message_list("list", "Messages") && is_message_list("list", "消息") && !is_message_list("x", "消息"));
    assert!(is_edit_box("entry") && is_edit_box("text") && !is_edit_box("label"));
}

#[test]
fn children_are_searched_in_order() {
    let mut f = Forest::new();
    let a = f.put("frame", "群", false, vec![]);
    let gone = f.put("gone", "微信", false, vec![]);
    let m = f.put("frame", "微信", false, vec![]);
    let root = f.put("app", "", false, vec![a, gone, m, m]);
    let start = |w: Wanted, from: i32| ChildSearch::start(root as u64, w, from);
    assert_eq!(f.search(start(Wanted::MainFrame, 0)), Some((m as u64, 2)));
    assert_eq!(f.search(start(Wanted::MainFrame, 3)), Some((m as u64, 3)));
    assert_eq!(f.search(start(Wanted::MainFrame, 4)), None);
    assert_eq!(f.search(start(Wanted::App, 0)), Some((m as u64, 2)));
    assert_eq!(f.search(start(Wanted::ChatFrame("群".to_string()), 0)), Some((a as u64, 0)));
    assert_eq!(f.search(start(Wanted::ChatFrame("微".to_string()), 0)), None);
    assert_eq!(f.search(start(Wanted::Frame("微".to_string()), 0)), Some((m as u64, 2)));
    let many = f.put("app", "", false, [vec![a; 10], vec![m]].concat());
    assert_eq!(f.search(ChildSearch::start(many as u64, Wanted::MainFrame, 0)), None);
    assert_eq!(f.search(ChildSearch::start(many as u64, Wanted::App, 0)), Some((m as u64, 10)));
}

#[test]
fn sessions_are_found_level_by_level() {
    let mut f = Forest::new();
    let deep = f.put("item", "好友A 12:00", false, vec![]);
    let filler = f.put("filler", "", true, vec![deep]);
    let closed = f.put("item", "other", false, vec![deep]);
    let list = f.put("list", "Chats", false, vec![closed, filler]);
    assert_eq!(f.session(list, "好友A"), Some(deep as u64));
    assert_eq!(f.session(list, "other"), Some(closed as u64));
    assert_eq!(f.session(list, "nobody"), None);
    let blank = f.put("item", "  ", false, vec![]);
    let list = f.put("list", "", false, vec![blank]);
    assert_eq!(f.session(list, " "), None);
    let mut at = f.put("item", "target", false, vec![]);
    for _ in 0..5 {
        at = f.put("filler", "", true, vec![at]);
    }
    let six = f.put("list", "", false, vec![at]);
    assert!(f.session(six, "target").is_some());
    let seven = f.put("filler", "", true, vec![six]);
    let top = f.put("list", "", false, vec![seven]);
    assert_eq!(f.session(top, "target"), None);
    let wide = f.put("list", "", false, [vec![blank; 30], vec![deep]].concat());
    assert_eq!(f.session(wide, "好友A"), None);
}

#[test]
fn parts_are_found_branch_by_branch() {
    let w = WeChat::new();
    let mut f = Forest::new();
    let second = f.put("list", "Messages", false, vec![]);
    let entry = f.put("text", "", false, vec![]);
    let first = f.put("list", "消息", false, vec![entry]);
    let chats = f.put("list", "Chats", false, vec![]);
    let gone = f.put("gone", "", false, vec![]);
    let panel = f.put("panel", "", false, vec![gone, first]);
    let app = f.put("app", "", false, vec![panel, second, chats]);
    assert_eq!(f.deep(w.find_message_list(app as u64)), Some(first as u64));
    assert_eq!(f.deep(w.find_session_list(app as u64)), Some(chats as u64));
    assert_eq!(f.deep(w.find_edit_box(app as u64)), Some(entry as u64));
    assert_eq!(f.deep(w.find_edit_box(panel as u64)), Some(entry as u64));
    assert_eq!(f.deep(w.find_session_list(panel as u64)), None);
    let mut at = f.put("list", "Chats", false, vec![]);
    for _ in 0..17 {
        at = f.put("panel", "", false, vec![at]);
    }
    let eighteen = f.put("app", "", false, vec![at]);
    assert!(f.deep(w.find_session_list(eighteen as u64)).is_some());
    let nineteen = f.put("app", "", false, vec![eighteen]);
    assert_eq!(f.deep(w.find_session_list(nineteen as u64)), None);
    let many = f.put("app", "", false, [vec![entry; 20], vec![chats]].concat());
    assert_eq!(f.deep(w.find_session_list(many as u64)), None);
}

#[test]
fn parts_are_found_level_by_level() {
    let w = WeChat::new();
    let mut f = Forest::new();
    let deep = f.put("tool bar", "导航", false, vec![]);
    let pane = f.put("splitter", "", false, vec![]);
    let panel = f.put("panel", "", false, vec![deep]);
    let bar = f.put("tool bar", "Navigation", false, vec![]);
    let app = f.put("app", "", false, vec![panel, bar, pane]);
    assert_eq!(f.wide(w.find_nav_toolbar(app as u64, 18, 20)), Some(bar as u64));
    assert_eq!(f.wide(w.find_split_pane(app as u64, 18, 20)), Some(pane as u64));
    assert_eq!(f.wide(w.find_split_pane(app as u64, 18, 2)), None);
    assert_eq!(f.wide(w.find_split_pane(panel as u64, 18, 20)), None);
    let top = f.put("app", "", false, vec![panel]);
    assert_eq!(f.wide(w.find_nav_toolbar(top as u64, 2, 20)), Some(deep as u64));
    assert_eq!(f.wide(w.find_nav_toolbar(top as u64, 1, 20)), None);
    assert_eq!(f.wide(w.find_nav_toolbar(top as u64, 0, 20)), None);
}

#[test]
fn windows_of_chats_are_found() {
    let mut f = Forest::new();
    let main = f.put("frame", "微信", false, vec![]);
    let own = f.put("frame", "工作群", false, vec![]);
    let app = f.put("app", "WeChat", false, vec![main, own]);
    assert_eq!(f.window(app, None, "工作群"), Some(own as u64));
    assert_eq!(f.window(app, None, "微信"), None);
    let inner = f.put("frame", "好友B", false, vec![]);
    let panel = f.put("panel", "好友B", false, vec![]);
    let hollow = f.put("app", "好友B 1", false, vec![panel]);
    let entry = f.put("app", "好友B 2", false, vec![panel, inner]);
    let registry = f.put("registry", "", false, vec![app, hollow, entry]);
    assert_eq!(f.window(app, Some(registry), "好友B"), Some(inner as u64));
    assert_eq!(f.window(app, Some(registry), "好友C"), None);
    assert_eq!(f.window(app, None, "好友B"), None);
}

#[test]
fn sessions_are_read_with_badges() {
    let mut f = Forest::new();
    let badge = f.put("label", "3", false, vec![]);
    let words = f.put("label", "3条", false, vec![]);
    let a = f.put("item", " 甲 ", false, vec![words, badge]);
    let b = f.put("item", "乙", false, vec![words]);
    let x = f.put("item", "x", false, vec![badge]);
    let gone = f.put("gone", "", false, vec![]);
    let list = f.put("list", "Chats", false, vec![a, gone, x, b]);
    let r = f.read(read_sessions(list as u64));
    let sessions = WeChat::new().list_sessions(&r.items);
    let got: Vec<(String, bool)> = sessions.into_iter().map(|s| (s.name, s.has_new)).collect();
    assert_eq!(got, vec![("甲".to_string(), true), ("乙".to_string(), false)]);
}

#[test]
fn messages_are_read_with_their_places() {
    let mut f = Forest::new();
    let button = f.put("push button", "甲", false, vec![]);
    let label = f.put("label", "hi", false, vec![]);
    let a = f.put("list item", "row", false, vec![button, label]);
    let gone = f.put("gone", "", false, vec![]);
    let time = f.put("label", "14:30", false, vec![]);
    let list = f.put("list", "Messages", false, vec![gone, a, time]);
    let r = f.read(read_messages(list as u64));
    let msgs = WeChat::new().get_all_messages(&r.items);
    assert_eq!(msgs.len(), 2);
    assert_eq!((msgs[0].index, msgs[0].sender.as_str(), msgs[0].content.as_str()), (1, "甲", "hi"));
    assert_eq!((msgs[1].index, msgs[1].msg_type.as_str()), (2, "time"));
    let long = f.put("list", "", false, vec![time; 120]);
    assert_eq!(f.read(read_messages(long as u64)).items.len(), 100);
}

#[test]
fn the_end_of_the_list_shows_what_was_sent() {
    let mut f = Forest::new();
    let first = f.put("item", "hello", false, vec![]);
    let other = f.put("item", "other", false, vec![]);
    let list = f.put("list", "", false, vec![first, other, other, other]);
    let r = f.read(read_tail(list as u64));
    assert_eq!(r.items.len(), 3);
    assert!(!verify_sent_in_list(&r.items, "hello"));
    let list = f.put("list", "", false, vec![other, first]);
    let r = f.read(read_tail(list as u64));
    assert!(verify_sent_in_list(&r.items, "hello"));
    let empty = f.put("list", "", false, vec![]);
    assert!(f.read(read_tail(empty as u64)).items.is_empty());
    assert!(name_shows(" hello ", "hello"));
    assert!(!name_shows("", "hello"));
    assert!(!name_shows("h", "hhhhhhhhhhhhhhhhhhhhhhhhhhhh"));
    assert!(!name_shows("hello", "bye"));
}

#[test]
fn the_program_is_looked_for_twice() {
    let s = WeChat::new().find_app().next(UiEvent::Node(None));
    assert!(matches!(s, AppStep::Reconnect));
    assert!(matches!(s.next(UiEvent::Flag(false)), AppStep::Done(None)));
    let s = s.next(UiEvent::Flag(true));
    assert!(matches!(s, AppStep::Rescan));
    assert!(matches!(s.next(UiEvent::Node(Some(4))), AppStep::Done(Some(4))));
    assert!(matches!(AppStep::Scan.next(UiEvent::Node(Some(1))), AppStep::Done(Some(1))));
}

#[test]
fn the_main_window_comes_to_the_front() {
    let mut s = FocusStep::start();
    assert_eq!(main_title(0), "微信");
    assert_eq!(s.pause(UiEvent::Flag(true)), 300);
    assert!(matches!(s.next(UiEvent::Flag(true)), FocusStep::Done(true)));
    s = s.next(UiEvent::Flag(false)).next(UiEvent::Failed).next(UiEvent::Flag(false));
    assert!(matches!(s, FocusStep::FindApp));
    assert!(matches!(s.next(UiEvent::Node(None)), FocusStep::Done(false)));
    s = s.next(UiEvent::Node(Some(9))).next(UiEvent::Frame(Some((5, 2))));
    assert!(matches!(s.next(UiEvent::Place(None)), FocusStep::FindFrame { app: 9, from: 3 }));
    s = s.next(UiEvent::Place(Some(Rect { x: 10, y: -40, w: 101, h: 5 })));
    assert!(matches!(s, FocusStep::Click { x: 60, y: 0 }));
    assert!(matches!(s.next(UiEvent::Failed), FocusStep::Done(true)));
    assert_eq!(title_bar_of(Rect { x: 10, y: 5, w: -3, h: 0 }), (9, 20));
}

#[test]
fn chats_are_picked_or_searched() {
    let mut w = WeChat::new();
    assert!(matches!(w.chat_with("甲"), ChatStep::Focus));
    let mut s = w.chat_with("甲").next(UiEvent::Done).next(UiEvent::Node(Some(1))).next(UiEvent::Node(Some(2)));
    assert!(matches!(s, ChatStep::FindSession { app: 1, list: 2 }));
    let picked = s.next(UiEvent::Node(Some(3))).next(UiEvent::Point(Some((7, 8))));
    assert!(matches!(picked, ChatStep::Click { x: 7, y: 8 }));
    assert_eq!(picked.pause(UiEvent::Done), 500);
    assert_eq!(picked.pause(UiEvent::Failed), 0);
    assert!(matches!(picked.next(UiEvent::Done), ChatStep::Done(ChatEnd::Listed)));
    s = s.next(UiEvent::Node(None));
    let mut waits = Vec::new();
    for _ in 0..5 {
        waits.push(s.pause(UiEvent::Done));
        s = s.next(UiEvent::Done);
    }
    assert_eq!(waits, vec![500, 100, 1500, 800, 500]);
    assert!(matches!(s, ChatStep::FindMessages { app: 1 }));
    assert!(matches!(s.next(UiEvent::Node(None)), ChatStep::Done(ChatEnd::Absent)));
    w.end_chat("甲", ChatEnd::Listed);
    assert!(matches!(w.chat_with("甲"), ChatStep::Done(ChatEnd::Already)));
    w.end_chat("r@chatroom", ChatEnd::Searched);
    assert_eq!(w.current_chat, None);
    assert!(matches!(w.chat_with("甲"), ChatStep::Focus));
    w.end_chat("乙", ChatEnd::Searched);
    assert_eq!(w.current_chat, Some("乙".to_string()));
    w.end_chat("丙", ChatEnd::Failed);
    assert_eq!(w.current_chat, Some("乙".to_string()));
    w.end_chat("丙", ChatEnd::Absent);
    assert_eq!(w.current_chat, None);
    assert!(ChatEnd::Searched.entered() && !ChatEnd::Absent.entered());
}

#[test]
fn steps_of_chats_note_what_is_shown() {
    let mut w = WeChat::new();
    let mut s = w.chat_with("甲");
    for e in [UiEvent::Done, UiEvent::Node(Some(1)), UiEvent::Node(Some(2)), UiEvent::Node(Some(3)), UiEvent::Point(Some((7, 8)))] {
        s = w.chat_step("甲", s, e);
        assert_eq!(w.current_chat, None);
    }
    s = w.chat_step("甲", s, UiEvent::Done);
    assert!(matches!(s, ChatStep::Done(ChatEnd::Listed)));
    assert_eq!(w.current_chat, Some("甲".to_string()));
    w.forget_chat();
    s = w.chat_step("甲", s, UiEvent::Done);
    assert!(matches!(s, ChatStep::Done(ChatEnd::Listed)));
    assert_eq!(w.current_chat, None);
    w.end_chat("甲", ChatEnd::Listed);
    s = w.chat_step("乙", ChatStep::FindMessages { app: 1 }, UiEvent::Node(None));
    assert!(matches!(s, ChatStep::Done(ChatEnd::Absent)));
    assert_eq!(w.current_chat, None);
}

#[test]
fn steps_of_adding_keep_the_list() {
    let mut w = WeChat::new();
    w.register("乙");
    let mut s = w.add_listen("甲");
    s = w.add_step("甲", s, UiEvent::Node(Some(1)));
    s = w.add_step("甲", s, UiEvent::Node(Some(5)));
    assert_eq!(w.get_listen_list(), vec!["乙"]);
    s = w.add_step("甲", s, UiEvent::Done);
    assert!(matches!(s, AddStep::Done(AddEnd::Listening)));
    assert_eq!(w.get_listen_list(), vec!["乙", "甲"]);
    w.end_chat("丙", ChatEnd::Listed);
    s = w.add_listen("乙");
    s = w.add_step("乙", s, UiEvent::Node(Some(1)));
    s = w.add_step("乙", s, UiEvent::Flag(false));
    assert!(matches!(s, AddStep::Forget { app: 1 }));
    s = w.add_step("乙", s, UiEvent::Done);
    assert_eq!(w.get_listen_list(), vec!["甲"]);
    s = w.add_step("乙", s, UiEvent::Node(None));
    for e in [UiEvent::Done, UiEvent::Flag(true), UiEvent::Node(Some(2)), UiEvent::Node(Some(3)), UiEvent::Point(Some((1, 2))), UiEvent::Done] {
        s = w.add_step("乙", s, e);
    }
    assert!(matches!(s, AddStep::ForgetChat { app: 1 }));
    assert_eq!(w.current_chat, Some("丙".to_string()));
    s = w.add_step("乙", s, UiEvent::Done);
    assert_eq!(w.current_chat, None);
    for _ in 0..3 {
        s = w.add_step("乙", s, UiEvent::Done);
        s = w.add_step("乙", s, UiEvent::Node(None));
    }
    assert!(matches!(s, AddStep::Done(AddEnd::NoWindow)));
    assert_eq!(w.get_listen_list(), vec!["甲"]);
}

#[test]
fn steps_of_sending_forget_dead_windows() {
    let mut w = WeChat::new();
    w.register("甲");
    w.register("乙");
    w.end_chat("甲", ChatEnd::Listed);
    let (cargo, mut s) = w.send_message("甲", true);
    s = w.send_step("甲", cargo, s, UiEvent::Flag(false));
    assert!(matches!(s, SendStep::Forget));
    assert_eq!(w.get_listen_list(), vec!["甲", "乙"]);
    s = w.send_step("甲", cargo, s, UiEvent::Done);
    assert!(matches!(s, SendStep::FindApp));
    assert_eq!(w.get_listen_list(), vec!["乙"]);
    assert_eq!(w.current_chat, None);
    w.end_chat("丙", ChatEnd::Listed);
    let (cargo, mut s) = w.send_image("丙");
    assert!(matches!(s, SendStep::ForgetChat));
    s = w.send_step("丙", cargo, s, UiEvent::Done);
    assert!(matches!(s, SendStep::GoTo { .. }));
    assert_eq!(w.current_chat, None);
    let (cargo, mut s) = w.send_message("乙", false);
    s = w.send_step("乙", cargo, s, UiEvent::Flag(true));
    s = w.send_step("乙", cargo, s, UiEvent::Done);
    assert!(matches!(s, SendStep::Done(SendEnd::Delegated)));
    assert_eq!(w.get_listen_list(), vec!["乙"]);
}

#[test]
fn a_window_is_opened_to_listen() {
    let mut w = WeChat::new();
    assert!(matches!(w.add_listen("甲").next(UiEvent::Node(None)), AddStep::Done(AddEnd::NoApp)));
    let mut s = w.add_listen("甲").next(UiEvent::Node(Some(1)));
    assert!(matches!(s, AddStep::FindExisting { app: 1 }));
    assert!(matches!(s.next(UiEvent::Node(Some(5))), AddStep::Adopt { window: 5, mark_read: false }));
    s = s.next(UiEvent::Node(None)).next(UiEvent::Done);
    assert!(matches!(s.next(UiEvent::Failed), AddStep::Done(AddEnd::Failed)));
    s = s.next(UiEvent::Flag(false)).next(UiEvent::Node(Some(2))).next(UiEvent::Node(Some(3)));
    s = s.next(UiEvent::Point(Some((1, 2))));
    assert_eq!(s.pause(UiEvent::Done), 1000);
    s = s.next(UiEvent::Done).next(UiEvent::Done);
    for tries in 0..3 {
        assert!(matches!(s, AddStep::Wait { tries: t, .. } if t == tries));
        assert_eq!(s.pause(UiEvent::Done), 1500);
        s = s.next(UiEvent::Done);
        assert!(matches!(s.next(UiEvent::Node(Some(6))), AddStep::Adopt { window: 6, mark_read: true }));
        s = s.next(UiEvent::Node(None));
    }
    assert!(matches!(s, AddStep::Done(AddEnd::NoWindow)));
    w.register("甲");
    let s = w.add_listen("甲").next(UiEvent::Node(Some(1)));
    assert!(matches!(s.next(UiEvent::Flag(true)), AddStep::Done(AddEnd::Listening)));
    assert!(matches!(s.next(UiEvent::Flag(false)), AddStep::Forget { app: 1 }));
}

#[test]
fn texts_are_pasted_into_entered_chats() {
    let mut w = WeChat::new();
    let (c, s) = w.send_message("甲", false);
    assert_eq!(c, Cargo::Text { verify: true });
    let s = s.next(c, UiEvent::Node(Some(1)));
    assert!(matches!(s.next(c, UiEvent::Flag(false)), SendStep::Done(SendEnd::NoChat)));
    assert_eq!(s.pause(c, UiEvent::Flag(true)), 300);
    assert_eq!(s.pause(c, UiEvent::Flag(false)), 0);
    let s = s.next(c, UiEvent::Flag(true));
    assert!(matches!(s, SendStep::Paste { app: 1 }));
    let s = s.next(c, UiEvent::Done);
    assert_eq!(s.pause(c, UiEvent::Done), 500);
    let s = s.next(c, UiEvent::Done);
    assert!(matches!(s.next(c, UiEvent::Flag(true)), SendStep::Done(SendEnd::Sent { verified: true })));
    let (quick, _) = w.send_message("甲", true);
    let sent = SendStep::PressEnter { app: 1 }.next(quick, UiEvent::Done);
    assert!(matches!(sent, SendStep::Done(SendEnd::Sent { verified: false })));
    w.register("甲");
    let (c, s) = w.send_message("甲", true);
    assert!(matches!(s.next(c, UiEvent::Flag(true)).next(c, UiEvent::Done), SendStep::Done(SendEnd::Delegated)));
    assert!(matches!(s.next(c, UiEvent::Flag(false)).next(c, UiEvent::Done), SendStep::FindApp));
}

#[test]
fn pictures_go_to_the_chat_anew() {
    let w = WeChat::new();
    let (c, s) = w.send_image("甲");
    assert!(matches!(s, SendStep::ForgetChat));
    let s = s.next(c, UiEvent::Done).next(c, UiEvent::Flag(true));
    assert_eq!(s.pause(c, UiEvent::Done), 500);
    let s = s.next(c, UiEvent::Done);
    assert_eq!(s.pause(c, UiEvent::Done), 0);
    assert!(matches!(s.next(c, UiEvent::Failed), SendStep::Done(SendEnd::Failed)));
    assert!(matches!(s.next(c, UiEvent::Done), SendStep::Done(SendEnd::Sent { verified: false })));
}

#[test]
fn going_to_a_chat_is_reported() {
    for end in [ChatEnd::Already, ChatEnd::Listed, ChatEnd::Searched] {
        assert!(matches!(chat_reply(end, "甲"), Some(ChatReply::Entered(name)) if name == "甲"));
    }
    assert!(matches!(chat_reply(ChatEnd::Absent, "甲"), Some(ChatReply::NotFound)));
    assert!(matches!(chat_reply(ChatEnd::NoApp, "甲"), Some(ChatReply::Failed(e)) if e == "找不到微信应用"));
    assert!(chat_reply(ChatEnd::Failed, "甲").is_none());
    assert!(matches!(add_reply(AddEnd::Listening), Some(AddReply::Added)));
    assert!(matches!(add_reply(AddEnd::NoWindow), Some(AddReply::NotAdded)));
    assert!(matches!(add_reply(AddEnd::NoApp), Some(AddReply::Failed(e)) if e == "找不到微信应用"));
    assert!(add_reply(AddEnd::Failed).is_none());
}

#[test]
fn sending_is_reported() {
    let text = Cargo::Text { verify: true };
    let show = |c: Cargo, e: SendEnd| format!("{:?}", send_reply(c, e, "甲"));
    assert!(show(text, SendEnd::Sent { verified: true }).contains("\"消息已发送\""));
    assert!(show(text, SendEnd::Sent { verified: false }).contains("\"消息已发送 (未验证)\""));
    assert!(show(Cargo::Picture, SendEnd::Sent { verified: false }).contains("\"图片已发送\""));
    assert!(show(text, SendEnd::NoChat).contains("\"未找到聊天: 甲\""));
    assert!(matches!(send_reply(text, SendEnd::NoApp, "甲"), Some(SendReply::Failed(e)) if e == "找不到微信应用"));
    assert!(send_reply(text, SendEnd::Delegated, "甲").is_none());
    assert!(send_reply(text, SendEnd::Failed, "甲").is_none());
}

#[test]
fn the_window_is_asked_three_times() {
    let mut s = VerifyStep::start();
    assert_eq!(s.pause(), 0);
    s = s.next(UiEvent::Node(None));
    assert_eq!(s.pause(), 500);
    s = s.next(UiEvent::Node(Some(1)));
    assert!(matches!(s.next(UiEvent::Flag(true)), VerifyStep::Done(true)));
    s = s.next(UiEvent::Flag(false));
    assert!(matches!(s, VerifyStep::FindMessages { tries: 2 }));
    assert!(matches!(s.next(UiEvent::Node(None)), VerifyStep::Done(false)));
}

#[test]
fn the_login_is_waited_for() {
    let mut w = LoginWait::new();
    let mut reconnects = Vec::new();
    for i in 0..30 {
        match w.step(WeChatStatus::NotRunning) {
            LoginAction::AwaitStart { reconnect } => {
                if reconnect {
                    reconnects.push(i);
                }
            }
            other => panic!("{:?}", other),
        }
    }
    assert_eq!(reconnects, vec![4, 9, 14, 19, 24, 29]);
    assert_eq!(w.step(WeChatStatus::NotRunning), LoginAction::Proceed);
    assert_eq!(w.step(WeChatStatus::WaitingForLogin), LoginAction::AwaitLogin { prompt: true });
    assert_eq!(w.step(WeChatStatus::WaitingForLogin), LoginAction::AwaitLogin { prompt: false });
    assert_eq!(w.step(WeChatStatus::LoggedIn), LoginAction::Proceed);
    assert_eq!(LoginAction::AwaitLogin { prompt: true }.pause_secs(), 3);
    assert_eq!(LoginAction::AwaitStart { reconnect: true }.pause_secs(), 2);
}

#[test]
fn the_key_has_sixty_four_bytes() {
    let key = "a".repeat(64);
    assert!(matches!(read_key(&Some(format!(" {}\n", key))), KeyFile::Key(k) if k == key));
    assert!(matches!(read_key(&Some("a".repeat(96))), KeyFile::BadLength(96)));
    assert!(matches!(read_key(&None), KeyFile::Missing));
    assert!(await_key(9, false) && !await_key(10, false) && !await_key(0, true));
}

#[test]
fn the_newest_directory_is_used() {
    assert_eq!(choose_db_dir(&vec![5, 9, 9, 2], true), DirChoice::Account(1));
    assert_eq!(choose_db_dir(&vec![-5], false), DirChoice::Account(0));
    assert_eq!(choose_db_dir(&vec![], true), DirChoice::Old);
    assert_eq!(choose_db_dir(&vec![], false), DirChoice::Nowhere);
    assert_eq!(dirs_or_home(&None), "/root");
    assert_eq!(dirs_or_home(&Some("/h".to_string())), "/h");
    assert_eq!(
        search_dirs("/root", &vec!["/home/wechat".to_string(), "/home/b/".to_string()]),
        vec![
            "/home/wechat/Documents/xwechat_files",
            "/root/Documents/xwechat_files",
            "/home/b/Documents/xwechat_files",
        ]
    );
}

#[test]
fn a_silent_connection_is_renewed() {
    let mut h = Heartbeat::new();
    assert_eq!(h.beat(2), HeartAction::Fine { recovered: false });
    assert_eq!(h.beat(0), HeartAction::Failing);
    assert_eq!(h.beat(0), HeartAction::Failing);
    assert_eq!(h.beat(-1), HeartAction::Reconnect);
    h.reconnected(false);
    assert_eq!(h.beat(0), HeartAction::Reconnect);
    h.reconnected(true);
    assert_eq!(h.beat(0), HeartAction::Failing);
    assert_eq!(h.beat(1), HeartAction::Fine { recovered: true });
    assert!(fetches(WalSignal::Changed) && fetches(WalSignal::Lagged) && fetches(WalSignal::Timeout));
    assert!(!fetches(WalSignal::Closed));
}
