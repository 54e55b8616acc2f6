use mimicwx::auth::{authorize, hex_val, lets_through, percent_decode, routes, Endpoint, Method};
use mimicwx::commands::{
    console_action, parse_console, parse_remote, remote_action, skips_window, ConsoleCommand, RemoteCommand,
};
use mimicwx::config::{
    default_at_delay, list_difference, list_with, list_without, load_config, plan_reload, save_listen_list, search_paths,
    AppConfig, ApiConfig, ListenConfig, TimingConfig,
};
use mimicwx::contacts::DbSessionInfo;
use mimicwx::reload::{add_outcome, Reload, ReloadStep};
use mimicwx::replies::{
    add_line, add_response, announce, auto_add_line, chat_response, decode_image, default_image_name, image_path, rand_u16,
    list_after_add, list_after_remove, refresh_line, reload_add_line, reload_failure_line, reload_failure_text, reload_opening_lines, reload_report, remote_add_text,
    remote_remove_text, remote_send_text, remote_status, remote_text, sessions_failure_line, remote_status_with, remove_line, remove_response,
    send_image_response, send_line, send_response, sessions_lines, status_lines, tree_depth, ws_step, AddOutcome,
    AddReply, ApiError, ChatReply, ReloadFailure, RemoveReply, SendReply, WsAction, WsEvent,
};

fn names(v: &[&str]) -> Vec<String> {
    v.iter().map(|s| s.to_string()).collect()
}

fn some(s: &str) -> Option<String> {
    Some(s.to_string())
}

fn config(token: Option<&str>, auto: &[&str], delay: u64) -> AppConfig {
    AppConfig {
        api: ApiConfig { token: token.map(String::from) },
        listen: ListenConfig { auto: names(auto) },
        timing: TimingConfig { at_delay_ms: delay },
    }
}

#[test]
fn percent_signs_are_escapes() {
    assert_eq!(percent_decode("a%20b%23"), "a b#");
    assert_eq!(percent_decode("%E5%BE%AE"), "微");
    assert_eq!(percent_decode("%e5%be%ae%4a"), "微J");
    assert_eq!(percent_decode("100%"), "100%");
    assert_eq!(percent_decode("100%zzx"), "100%x");
    assert_eq!(percent_decode("%4"), "%");
    assert_eq!(percent_decode("%ff"), "%ff");
    assert_eq!(percent_decode("plain+"), "plain+");
    assert_eq!(hex_val(b'f'), Some(15));
    assert_eq!(hex_val(b'A'), Some(10));
    assert_eq!(hex_val(b'0'), Some(0));
    assert_eq!(hex_val(b'g'), None);
    let every: Vec<u8> = (0u8..=127).collect();
    let text = String::from_utf8(every).unwrap();
    let escaped: String = text.bytes().map(|b| format!("%{:02x}", b)).collect();
    assert_eq!(percent_decode(&escaped), text);
    let capitals: String = text.bytes().map(|b| format!("%{:02X}", b)).collect();
    assert_eq!(percent_decode(&capitals), text);
    assert_eq!(percent_decode("%4a%4A%c3%A9x%C3%a9"), "JJéxé");
}

#[test]
fn requests_need_the_token() {
    let token = some("s#cret");
    assert!(authorize(&None, &None, &None));
    assert!(!authorize(&token, &None, &None));
    assert!(authorize(&token, &some("Bearer s#cret"), &None));
    assert!(authorize(&token, &some("Bearer   s#cret  "), &None));
    assert!(!authorize(&token, &some("bearer s#cret"), &None));
    assert!(!authorize(&token, &some("Bearer other"), &None));
    assert!(authorize(&token, &some("Bearer other"), &some("a=1&token=s%23cret")));
    assert!(authorize(&token, &None, &some("token=x&token=s#cret")));
    assert!(!authorize(&token, &None, &some("xtoken=s%23cret")));
    assert!(!authorize(&token, &None, &some("token=s%23cre")));
    let odd = some("微 %&=");
    let escaped: String = "微 %&=".bytes().map(|b| format!("%{:02X}", b)).collect();
    assert!(authorize(&odd, &None, &some(&format!("x=1&token={}", escaped))));
    assert!(authorize(&some("微信=1"), &None, &some("token=微信=1")));
}

#[test]
fn only_the_status_is_open() {
    let token = some("t");
    let all = routes();
    assert_eq!(all.len(), 16);
    for r in &all {
        assert_eq!(r.guarded, r.endpoint != Endpoint::Status);
        assert_eq!(lets_through(r, &token, &None, &None), r.path == "/status");
        assert!(lets_through(r, &token, &some("Bearer t"), &None));
    }
    let has = |m: Method, p: &str, e: Endpoint| all.iter().any(|r| r.method == m && r.path == p && r.endpoint == e);
    assert!(has(Method::Delete, "/listen", Endpoint::RemoveListen));
    assert!(has(Method::Get, "/listen/messages", Endpoint::ListenMessages));
    assert!(has(Method::Get, "/debug/session_tree", Endpoint::SessionTree));
    assert!(has(Method::Post, "/send_image", Endpoint::SendImage));
}

#[test]
fn the_first_configuration_counts() {
    assert_eq!(search_paths()[0], "./config.toml");
    assert_eq!(search_paths().len(), 3);
    let (c, at) = load_config(&vec![None, Some(config(Some("x"), &["a"], 5)), Some(config(None, &[], 6))]);
    assert_eq!(at, Some(1));
    assert_eq!(c.timing.at_delay_ms, 5);
    assert_eq!(c.listen.auto, vec!["a"]);
    assert_eq!(c.required_token(), some("x"));
    let (c, at) = load_config(&vec![None, None, None]);
    assert_eq!(at, None);
    assert_eq!(c.timing.at_delay_ms, 300);
    assert_eq!(default_at_delay(), 300);
    assert_eq!(TimingConfig::default().at_delay_ms, 300);
    assert!(c.listen.auto.is_empty());
    assert_eq!(c.required_token(), None);
    assert_eq!(config(Some(""), &[], 1).required_token(), None);
}

#[test]
fn the_list_replaces_its_entry() {
    let content = "[api]\ntoken = \"t\"\n# auto = [\"x\"]\n[listen]\n  auto = [\"old\"]\n[timing]\n";
    assert_eq!(
        save_listen_list(content, &names(&["好友A", "工作群"])),
        "[api]\ntoken = \"t\"\n# auto = [\"x\"]\n[listen]\nauto = [\"好友A\",\"工作群\"]\n[timing]\n"
    );
    assert_eq!(save_listen_list("auto = [\n  \"a\",\n  \"b\",\n]\nx = 1", &Vec::new()), "auto = []\nx = 1");
    assert_eq!(save_listen_list("[listen]\nx = 1\n", &names(&["a"])), "[listen]\nauto = [\"a\"]\nx = 1\n");
    assert_eq!(save_listen_list("nothing", &names(&["a"])), "nothing");
    let once = save_listen_list(content, &names(&["a"]));
    assert_eq!(save_listen_list(&once, &names(&["a"])), once);
}

#[test]
fn other_lines_stay() {
    let content = "  # auto = [\"x\"]\n\n[listen]\nauto = []\n  other = 1  \nauto = [\"y\"]";
    let saved = save_listen_list(content, &names(&["a"]));
    assert_eq!(saved, "  # auto = [\"x\"]\n\n[listen]\nauto = [\"a\"]\n  other = 1  \nauto = [\"a\"]");
    let content = "# top\nauto = [\n  \"x\",\n]\n# end\nauto = []";
    assert_eq!(save_listen_list(content, &names(&["a"])), "# top\nauto = [\"a\"]\n# end\nauto = [\"a\"]");
}

#[test]
fn only_the_entry_is_rewritten() {
    let one = names(&["a"]);
    assert_eq!(
        save_listen_list("[api]\nautostart = true\n[listen]\nauto = []", &one),
        "[api]\nautostart = true\n[listen]\nauto = [\"a\"]"
    );
    assert_eq!(save_listen_list("[listen]\nauto = []\n", &one), "[listen]\nauto = [\"a\"]\n");
    assert_eq!(
        save_listen_list("[listen]\r\nauto=[]\r\nx = 1\r\n", &one),
        "[listen]\r\nauto = [\"a\"]\r\nx = 1\r\n"
    );
    assert_eq!(
        save_listen_list("auto_listen = [\"x\"]\nauto = \"no list\"\n[listen]\n", &one),
        "auto_listen = [\"x\"]\nauto = \"no list\"\n[listen]\nauto = [\"a\"]\n"
    );
    assert_eq!(
        save_listen_list("# see [listen]\n[listen]\n", &one),
        "# see [listen]\n[listen]\nauto = [\"a\"]\n"
    );
}

#[test]
fn the_entry_holds_its_names() {
    for list in [names(&[]), names(&["a"]), names(&["好友A", "", "x, y", "[z]"])] {
        let saved = save_listen_list("[listen]\nauto = [\"old\"]\n", &list);
        let entry = saved.lines().nth(1).unwrap().to_string();
        let read: Vec<String> = entry.split('"').skip(1).step_by(2).map(String::from).collect();
        assert_eq!(read, list);
    }
}

#[test]
fn the_list_follows_what_worked() {
    let now = names(&["a"]);
    assert_eq!(list_after_add(&AddReply::Added, &now, "b"), Some(names(&["a", "b"])));
    assert_eq!(list_after_add(&AddReply::NotAdded, &now, "b"), None);
    assert_eq!(list_after_add(&AddReply::Stopped, &now, "b"), None);
    assert_eq!(list_after_remove(RemoveReply::Removed, &now, "a"), Some(Vec::new()));
    assert_eq!(list_after_remove(RemoveReply::NotFound, &now, "a"), None);
}

#[test]
fn lists_gain_and_lose_names() {
    assert_eq!(list_with(&names(&["a"]), "b"), vec!["a", "b"]);
    assert_eq!(list_with(&names(&["a"]), "a"), vec!["a"]);
    assert_eq!(list_without(&names(&["a", "b", "a"]), "a"), vec!["b"]);
    assert_eq!(list_difference(&names(&["a", "b", "c"]), &names(&["b"])), vec!["a", "c"]);
}

#[test]
fn a_reload_reaches_the_configuration() {
    let plan = plan_reload(300, &names(&["a", "b"]), &config(None, &["b", "c"], 500));
    assert_eq!(plan.at_delay_ms, Some(500));
    assert_eq!(plan.to_remove, vec!["a"]);
    assert_eq!(plan.to_add, vec!["c"]);
    assert_eq!(
        reload_report(300, &plan, &vec![AddOutcome::Added]),
        "⚙️ at_delay_ms: 300 → 500\n👂 移除监听: a\n✅ 添加监听: c\n⚙️ 配置已重载"
    );
    assert_eq!(
        reload_report(300, &plan, &vec![AddOutcome::Failed]),
        "⚙️ at_delay_ms: 300 → 500\n👂 移除监听: a\n⚠️ 添加失败: c\n⚙️ 配置已重载"
    );
    assert_eq!(reload_opening_lines(300, &plan).len(), 1);
    let same = plan_reload(300, &names(&["b"]), &config(None, &["b"], 300));
    assert_eq!(reload_report(300, &same, &Vec::new()), "⚙️ 配置已重载 (无变化)");
    assert_eq!(reload_opening_lines(300, &same)[0].text, "⚙️ 监听列表无变化");
    let one = plan_reload(300, &Vec::new(), &config(None, &["b"], 300));
    assert_eq!(reload_report(300, &one, &vec![AddOutcome::Unasked]), "⚙️ 配置已重载 (无变化)");
    assert_eq!(reload_failure_text(&ReloadFailure::NoPath), "⚠️ 未找到配置文件路径");
    assert_eq!(reload_failure_text(&ReloadFailure::Unreadable("e".to_string())), "⚠️ 读取配置失败: e");
    assert_eq!(reload_failure_text(&ReloadFailure::Unparsable("e".to_string())), "⚠️ 配置解析失败: e");
    assert_eq!(reload_add_line("x", AddOutcome::Added).unwrap().text, "✅ 监听已添加: x");
    assert!(reload_add_line("x", AddOutcome::Failed).unwrap().warn);
    assert!(reload_add_line("x", AddOutcome::Unasked).is_none());
}

#[test]
fn a_reload_takes_each_chat_once() {
    let plan = plan_reload(300, &names(&["a", "b", "c"]), &config(None, &["c", "d", "e", "f"], 300));
    let mut r = Reload::start(plan);
    let mut seen = Vec::new();
    let replies = [AddReply::Added, AddReply::Failed("x".to_string()), AddReply::Stopped];
    loop {
        let who = r.who();
        match r.step {
            ReloadStep::Remove(_) => {
                let who = who.unwrap();
                assert_eq!(r.line().text, format!("👂 /reload 移除监听: {}", who));
                seen.push(format!("-{}", who));
                r.removed();
            }
            ReloadStep::Add(i) => {
                let who = who.unwrap();
                assert_eq!(r.line().text, format!("👂 /reload 添加监听: {}", who));
                seen.push(format!("+{}", who));
                r.removed();
                assert_eq!(r.step, ReloadStep::Add(i));
                r.added(&replies[i]);
            }
            ReloadStep::Done => {
                assert_eq!(r.line().text, "⚙️ 配置已重新加载");
                break;
            }
        }
    }
    assert_eq!(seen, vec!["-a", "-b", "+d", "+e", "+f"]);
    assert_eq!(r.outcomes, vec![AddOutcome::Added, AddOutcome::Failed, AddOutcome::Unasked]);
    assert_eq!(r.report(300), "👂 移除监听: a\n👂 移除监听: b\n✅ 添加监听: d\n⚠️ 添加失败: e\n⚙️ 配置已重载");
    assert_eq!(add_outcome(&AddReply::Closed), AddOutcome::Failed);
    let empty = Reload::start(plan_reload(300, &Vec::new(), &config(None, &[], 300)));
    assert_eq!(empty.step, ReloadStep::Done);
    assert_eq!(empty.report(300), "⚙️ 配置已重载 (无变化)");
}

#[test]
fn failures_are_told() {
    let line = reload_failure_line(&ReloadFailure::NoPath);
    assert_eq!((line.warn, line.text.as_str()), (false, "⚠️ 未找到配置文件路径, 无法重载"));
    assert_eq!(reload_failure_line(&ReloadFailure::Unreadable("e".to_string())).text, "⚠️ 读取配置失败: e");
    assert_eq!(reload_failure_line(&ReloadFailure::Unparsable("e".to_string())).text, "⚠️ 配置解析失败: e");
    assert_eq!(sessions_failure_line("e").text, "⚠️ 获取会话失败: e");
    let auto = |r: &AddReply| {
        let (line, go_on) = auto_add_line("a", r);
        (line.text, go_on)
    };
    assert_eq!(auto(&AddReply::Added), ("✅ 自动监听已添加: a".to_string(), true));
    assert_eq!(auto(&AddReply::NotAdded), ("⚠️ 自动监听添加失败: a".to_string(), true));
    assert_eq!(auto(&AddReply::Failed("e".to_string())), ("⚠️ 自动监听错误: a - e".to_string(), true));
    assert_eq!(auto(&AddReply::Closed), ("⚠️ actor 响应通道已关闭".to_string(), true));
    assert_eq!(auto(&AddReply::Stopped), ("⚠️ InputEngine actor 已停止, 无法自动添加监听".to_string(), false));
}

#[test]
fn console_commands_lead_to_actions() {
    let show = |c: &str, db: bool, conf: bool| format!("{:?}", console_action(&parse_console(c), db, conf));
    assert_eq!(show("/restart", false, false), "Exit(42)");
    assert_eq!(show("/stop", false, false), "Exit(0)");
    assert_eq!(show("/status", false, false), "ShowStatus");
    assert_eq!(show("/refresh", false, true), "Nothing");
    assert_eq!(show("/refresh", true, true), "RefreshContacts");
    assert_eq!(show("/atmode", true, true), "PushAtMode");
    assert_eq!(show("/reload", true, false), "Nothing");
    assert_eq!(show("/reload", true, true), "Reload");
    assert_eq!(show("/sessions", true, false), "ListSessions");
    assert_eq!(show("/sessions", false, true), "Nothing");
    assert_eq!(show("/send a b", true, true), "Send { to: \"a\", text: \"b\", skip_verify: true }");
    assert_eq!(show("/send a b", false, true), "Send { to: \"a\", text: \"b\", skip_verify: false }");
    assert_eq!(show("/listen a", true, true), "AddListen { who: \"a\" }");
    assert_eq!(show("/unlisten a", true, true), "RemoveListen { who: \"a\" }");
    assert_eq!(show("/help", true, true), "Nothing");
    assert_eq!(show("?", true, true), "Nothing");
}

#[test]
fn remote_commands_call_for_actions() {
    let show = |s: &str, db: bool| format!("{:?}", remote_action(&parse_remote(s), db));
    assert_eq!(show("send a b c", true), "Send { to: \"a\", text: \"b c\", skip_verify: true }");
    assert_eq!(show(" send  a  b ", false), "Send { to: \"a\", text: \"b\", skip_verify: false }");
    assert_eq!(show("send a", true), "Nothing");
    assert_eq!(show("status", true), "ShowStatus");
    assert_eq!(show("atmode", false), "PushAtMode");
    assert_eq!(show("reload", false), "Reload");
    assert_eq!(show("listen a b", true), "AddListen { who: \"a b\" }");
    assert_eq!(show("unlisten a", true), "RemoveListen { who: \"a\" }");
    assert_eq!(show("refresh", true), "Nothing");
    assert_eq!(show("", true), "Nothing");
    assert!(skips_window(true) && !skips_window(false));
}

#[test]
fn some_remote_commands_are_answered_at_once() {
    let answer = |s: &str| remote_text(&parse_remote(s));
    assert_eq!(answer("atmode"), some("📢 已发送仅@模式切换指令"));
    assert_eq!(answer("send a"), some("❌ 用法: send <收件人> <内容>"));
    assert_eq!(answer("x y"), some("❓ 未知命令: x y"));
    assert_eq!(remote_text(&RemoteCommand::ListenUsage), some("❌ 用法: listen <联系人/群名>"));
    assert_eq!(remote_text(&RemoteCommand::UnlistenUsage), some("❌ 用法: unlisten <联系人/群名>"));
    assert_eq!(answer("status"), None);
    assert_eq!(answer("listen a"), None);
}

#[test]
fn console_lines_are_commands() {
    let show = |s: &str| format!("{:?}", parse_console(s));
    assert_eq!(show("/restart"), "Restart");
    assert_eq!(show("/stop"), "Stop");
    assert_eq!(show("/status"), "Status");
    assert_eq!(show("/refresh"), "Refresh");
    assert_eq!(show("/atmode"), "AtMode");
    assert_eq!(show("/reload"), "Reload");
    assert_eq!(show("/sessions"), "Sessions");
    assert_eq!(show("/help"), "Help");
    assert_eq!(show("/send 文件传输助手  hi there"), "Send { to: \"文件传输助手\", text: \"hi there\" }");
    assert_eq!(show("/send x"), "SendUsage");
    assert_eq!(show("/send "), "SendUsage");
    assert_eq!(show("/send"), "Unknown { cmd: \"/send\" }");
    assert_eq!(show("/listen  好友 A "), "Listen { who: \"好友 A\" }");
    assert_eq!(show("/listen  "), "ListenUsage");
    assert_eq!(show("/unlisten x"), "Unlisten { who: \"x\" }");
    assert_eq!(show("/unlisten  "), "UnlistenUsage");
    assert_eq!(show("hello"), "Unknown { cmd: \"hello\" }");
    assert_eq!(ConsoleCommand::Restart.exit_code(), Some(42));
    assert_eq!(ConsoleCommand::Stop.exit_code(), Some(0));
    assert_eq!(ConsoleCommand::Help.exit_code(), None);
}

#[test]
fn remote_texts_are_commands() {
    let show = |s: &str| format!("{:?}", parse_remote(s));
    assert_eq!(show(" status "), "Status");
    assert_eq!(show("atmode"), "AtMode");
    assert_eq!(show("reload"), "Reload");
    assert_eq!(show("listen 群"), "Listen { who: \"群\" }");
    assert_eq!(show("unlisten 群"), "Unlisten { who: \"群\" }");
    assert_eq!(show("listen"), "Unknown { cmd: \"listen\" }");
    assert_eq!(show("send a  b c"), "Send { to: \"a\", text: \"b c\" }");
    assert_eq!(show("send a"), "SendUsage");
    assert_eq!(show("/status"), "Unknown { cmd: \"/status\" }");
    assert!(matches!(parse_remote(""), RemoteCommand::Unknown { cmd } if cmd.is_empty()));
}

#[test]
fn announcements_come_before_commands() {
    let first = |c: &str, db: bool, conf: bool| announce(&parse_console(c), db, conf).into_iter().map(|l| l.text).collect::<Vec<_>>();
    assert_eq!(first("/restart", true, true), vec!["🔄 收到 /restart 命令, 准备重启..."]);
    assert_eq!(first("/refresh", false, true), vec!["⚠️ 数据库不可用"]);
    assert_eq!(first("/refresh", true, true), vec!["👥 手动刷新联系人..."]);
    assert!(first("/sessions", true, true).is_empty());
    assert_eq!(first("/reload", true, false), vec!["⚠️ 未找到配置文件路径, 无法重载"]);
    assert_eq!(first("/send a b", true, true), vec!["📤 发送消息: [a] → b"]);
    assert_eq!(first("?", true, true), vec!["❓ 未知命令: ? (/help 查看帮助)"]);
    assert_eq!(first("/help", true, true).len(), 10);
}

#[test]
fn reports_show_the_state() {
    assert_eq!(
        remote_status("已登录", true, 3, &names(&["a\"b", "群"]), 3725, "0.4.0"),
        "📊 微信: 已登录\n📊 数据库: 可用 | 联系人: 3\n📊 监听: 2 个 [\"a\\\"b\", \"群\"]\n📊 运行: 1h2m | v0.4.0"
    );
    assert_eq!(
        remote_status_with("未运行", false, 0, 0, "[]", 59, "1"),
        "📊 微信: 未运行\n📊 数据库: 不可用 | 联系人: 0\n📊 监听: 0 个 []\n📊 运行: 0h0m | v1"
    );
    let lines = status_lines("已登录", false, 7, &names(&["a"]), "0.4.0");
    let texts: Vec<&str> = lines.iter().map(|l| l.text.as_str()).collect();
    assert_eq!(
        texts,
        vec![
            "📊 === 运行时状态 ===",
            "📊 微信状态: 已登录",
            "📊 数据库: 不可用 | 联系人: 7 条",
            "📊 监听窗口: 1 个 [\"a\"]",
            "📊 版本: v0.4.0",
            "📊 ==================",
        ]
    );
}

#[test]
fn sessions_are_listed_with_unread_counts() {
    let s = |n: &str, unread: i32| DbSessionInfo {
        username: format!("id_{}", n),
        display_name: n.to_string(),
        unread_count: unread,
        summary: String::new(),
        last_timestamp: 0,
        last_msg_sender: String::new(),
    };
    let lines = sessions_lines(&vec![s("甲", 2), s("乙", 0)]);
    let texts: Vec<&str> = lines.iter().map(|l| l.text.as_str()).collect();
    assert_eq!(
        texts,
        vec!["💬 === 会话列表 (2 个) ===", "💬  甲 (id_甲) [未读:2]", "💬  乙 (id_乙)", "💬 =================="]
    );
}

#[test]
fn replies_follow_the_worker() {
    let done = |sent: bool, verified: bool| SendReply::Done { sent, verified, message: "m".to_string() };
    let failed = SendReply::Failed("e".to_string());
    assert!(send_response(&done(true, false), Some(true)).unwrap().verified);
    assert!(!send_response(&done(true, true), Some(false)).unwrap().verified);
    assert!(send_response(&done(true, true), None).unwrap().verified);
    let e = send_response(&failed, None).unwrap_err();
    assert_eq!((e.status, e.message.as_str()), (500, "发送失败: e"));
    let e = send_response(&SendReply::Closed, None).unwrap_err();
    assert_eq!((e.status, e.message.as_str()), (500, "actor 响应通道已关闭"));
    let e = send_response(&SendReply::Stopped, None).unwrap_err();
    assert_eq!((e.status, e.message.as_str()), (503, "InputEngine actor 已停止"));
    assert_eq!(send_image_response(&failed).unwrap_err().message, "发送图片失败: e");
    assert_eq!(send_image_response(&done(true, false)).unwrap().message, "m");
    assert_eq!(chat_response(&ChatReply::Entered("a".to_string())).unwrap().chat_name, some("a"));
    assert!(!chat_response(&ChatReply::NotFound).unwrap().success);
    assert_eq!(chat_response(&ChatReply::Failed("e".to_string())).unwrap_err().message, "切换聊天失败: e");
    assert_eq!(chat_response(&ChatReply::Stopped).unwrap_err().status, 503);
    assert_eq!(chat_response(&ChatReply::Closed).unwrap_err().status, 500);
    assert_eq!(add_response("a", &AddReply::Added).unwrap().message, "已添加监听: a");
    assert_eq!(add_response("a", &AddReply::NotAdded).unwrap().message, "添加监听失败: a");
    assert_eq!(add_response("a", &AddReply::Failed("e".to_string())).unwrap_err().message, "添加监听错误: e");
    assert_eq!(add_response("a", &AddReply::Closed).unwrap_err().status, 500);
    assert_eq!(add_response("a", &AddReply::Stopped).unwrap_err().status, 503);
    assert_eq!(remove_response("a", RemoveReply::Removed).message, "已移除监听: a");
    for r in [RemoveReply::NotFound, RemoveReply::Closed, RemoveReply::Stopped] {
        assert!(!remove_response("a", r).success);
        assert_eq!(remove_response("a", r).message, "未找到监听: a");
    }
    assert_eq!(remote_add_text("a", &AddReply::Added), "✅ 监听已添加: a");
    assert_eq!(remote_add_text("a", &AddReply::NotAdded), "⚠️ 添加失败: a");
    assert_eq!(remote_add_text("a", &AddReply::Failed("e".to_string())), "⚠️ 错误: e");
    assert_eq!(remote_add_text("a", &AddReply::Closed), "⚠️ actor 响应通道已关闭");
    assert_eq!(remote_add_text("a", &AddReply::Stopped), "⚠️ InputEngine 不可用");
    assert_eq!(remote_remove_text("a", RemoveReply::Removed), "✅ 监听已移除: a");
    assert_eq!(remote_remove_text("a", RemoveReply::NotFound), "⚠️ 未找到监听: a");
    assert_eq!(remote_send_text(&done(true, false)), "✅ m");
    assert_eq!(remote_send_text(&done(false, false)), "⚠️ m");
    assert_eq!(remote_send_text(&failed), "⚠️ 发送失败: e");
    assert_eq!(send_line(&done(true, false)).text, "✅ m");
    assert!(send_line(&failed).warn);
    assert_eq!(send_line(&SendReply::Stopped).text, "⚠️ InputEngine actor 已停止");
    assert_eq!(add_line("a", &AddReply::NotAdded).text, "⚠️ 添加监听失败: a");
    assert!(!remove_line("a", RemoveReply::NotFound).warn);
    assert_eq!(refresh_line(&Ok(5)).text, "👥 刷新完成: 5 条");
    assert_eq!(refresh_line(&Err("e".to_string())).text, "⚠️ 刷新失败: e");
    assert_eq!(ApiError::unavailable("数据库不可用").status, 503);
    assert_eq!(ApiError::failed("消息查询失败: ", "e").message, "消息查询失败: e");
}

#[test]
fn pictures_are_decoded_and_named() {
    assert_eq!(decode_image("aGVsbG8=").unwrap(), b"hello".to_vec());
    let e = decode_image("a*").unwrap_err();
    assert_eq!(e.status, 500);
    assert!(e.message.starts_with("base64 解码失败: ") && e.message.len() > "base64 解码失败: ".len());
    assert_eq!(image_path(1700000000123, 0xab, "a.b.jpg"), "/tmp/mimicwx_img_1700000000123_00ab.jpg");
    assert_eq!(image_path(5, 0xffff, "noext"), "/tmp/mimicwx_img_5_ffff.png");
    assert_eq!(image_path(5, 1, "x."), "/tmp/mimicwx_img_5_0001.");
    assert_eq!(default_image_name(), "image.png");
    assert_eq!(rand_u16(0x12345678, 0xffff_ffff_0000_00ff), ((0x12345678u32 ^ 0xffu32) & 0xffff) as u16);
    assert_eq!(tree_depth(&None), 5);
    assert_eq!(tree_depth(&some("x")), 5);
    assert_eq!(tree_depth(&some("0")), 0);
    assert_eq!(tree_depth(&some("14")), 14);
    assert_eq!(tree_depth(&some("99")), 15);
}

#[test]
fn push_connections_react() {
    assert!(matches!(ws_step(WsEvent::Push("t".to_string())), WsAction::Send(t) if t == "t"));
    assert!(matches!(ws_step(WsEvent::PushEnded), WsAction::Close));
    assert!(matches!(ws_step(WsEvent::PeerClosed), WsAction::Close));
    assert!(matches!(ws_step(WsEvent::PeerOther), WsAction::Nothing));
    assert!(matches!(ws_step(WsEvent::Tick), WsAction::Ping));
}
