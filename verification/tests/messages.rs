use mimicwx::cell::{texts_in, wcdb_get_text, Cell};
use mimicwx::contacts::{add_rooms, load_contacts, read_sessions, resolve_name, ContactRow, RoomRow, SessionRow};
use mimicwx::content::{
    app_label, base_of, content_from, decompress_wcdb_content, looks_like_file, parse_msg_content, MsgContent,
};
use mimicwx::messages::{is_own, message_from, read_message, read_rows, split_sender, MsgRow, RawMsg};
use mimicwx::table::Table;
use mimicwx::xml::{extract_xml_attr, extract_xml_text, read_events};

fn t(s: &str) -> Cell {
    Cell::Text(s.to_string())
}

fn raw(chat: &str, talker: &str, content: &str, msg_type: i64, status: i64, source: &str) -> RawMsg {
    RawMsg {
        local_id: 7,
        server_id: 8,
        create_time: 9,
        content: content.to_string(),
        msg_type,
        talker: talker.to_string(),
        chat: chat.to_string(),
        status,
        source: source.to_string(),
        table_key: "k".to_string(),
    }
}

#[test]
fn xml_attributes_are_found() {
    let x = r#"<msg><img a="1" cdnmidimgurl="u/&amp;" /><img cdnmidimgurl="second"/></msg>"#;
    assert_eq!(extract_xml_attr(x, "img", "cdnmidimgurl"), Some("u/&amp;".to_string()));
    assert_eq!(extract_xml_attr(x, "img", "none"), None);
    assert_eq!(extract_xml_attr(x, "IMG", "a"), None);
    assert_eq!(extract_xml_attr("no xml at all", "img", "a"), None);
    assert_eq!(extract_xml_attr("<a x='1'></b>", "a", "x"), Some("1".to_string()));
}

#[test]
fn xml_texts_are_found() {
    let x = "<m><title>A &lt; B</title><des><![CDATA[raw <x>]]></des><url/><type>5</type></m>";
    assert_eq!(extract_xml_text(x, "title"), Some("A < B".to_string()));
    assert_eq!(extract_xml_text(x, "des"), Some("raw <x>".to_string()));
    assert_eq!(extract_xml_text(x, "url"), None);
    assert_eq!(extract_xml_text(x, "type"), Some("5".to_string()));
    assert_eq!(extract_xml_text("<a></a>text<a>in</a>", "a"), Some("in".to_string()));
    assert_eq!(extract_xml_text("<title><b>x</b></title>", "title"), Some("x".to_string()));
    assert_eq!(extract_xml_text("<title><title/>text</title>", "title"), Some("text".to_string()));
}

#[test]
fn kinds_are_the_low_sixteen_bits() {
    assert_eq!(base_of(0x6_0000_0031), 49);
    assert_eq!(base_of(1), 1);
    assert_eq!(base_of(-1), 65535);
    assert_eq!(base_of(i64::MIN), 0);
}

#[test]
fn messages_are_parsed_by_kind() {
    assert!(matches!(parse_msg_content(1, "hi"), MsgContent::Text { text } if text == "hi"));
    match parse_msg_content(3, r#"<msg><img cdnbigimgurl="big"/></msg>"#) {
        MsgContent::Image { path } => assert_eq!(path, Some("big".to_string())),
        other => panic!("{:?}", other),
    }
    match parse_msg_content(3, r#"<msg><img cdnbigimgurl="big" cdnmidimgurl="mid"/></msg>"#) {
        MsgContent::Image { path } => assert_eq!(path, Some("mid".to_string())),
        other => panic!("{:?}", other),
    }
    match parse_msg_content(34, r#"<msg><voicemsg voicelen="1500"/></msg>"#) {
        MsgContent::Voice { duration_ms } => assert_eq!(duration_ms, Some(1500)),
        other => panic!("{:?}", other),
    }
    match parse_msg_content(34, r#"<msg><voicemsg voicelength="x" length="9"/></msg>"#) {
        MsgContent::Voice { duration_ms } => assert_eq!(duration_ms, None),
        other => panic!("{:?}", other),
    }
    match parse_msg_content(42, r#"<msg username="wxid_a" nickname="A"/>"#) {
        MsgContent::App { title, desc, url, app_type } => {
            assert_eq!(title, Some("A".to_string()));
            assert_eq!(desc, Some("名片".to_string()));
            assert_eq!(url, None);
            assert_eq!(app_type, Some(42));
        }
        other => panic!("{:?}", other),
    }
    match parse_msg_content(43, r#"<msg><videomsg cdnthumburl="th"/></msg>"#) {
        MsgContent::Video { thumb_path } => assert_eq!(thumb_path, Some("th".to_string())),
        other => panic!("{:?}", other),
    }
    match parse_msg_content(47, r#"<msg><emoji cdnurl="e"/></msg>"#) {
        MsgContent::Emoji { url } => assert_eq!(url, Some("e".to_string())),
        other => panic!("{:?}", other),
    }
    match parse_msg_content(0x100000031, "<appmsg><title>T</title><des>D</des><url>U</url><type>6</type></appmsg>") {
        MsgContent::App { title, desc, url, app_type } => {
            assert_eq!(title, Some("T".to_string()));
            assert_eq!(desc, Some("D".to_string()));
            assert_eq!(url, Some("U".to_string()));
            assert_eq!(app_type, Some(6));
        }
        other => panic!("{:?}", other),
    }
    assert!(matches!(parse_msg_content(10000, "s"), MsgContent::System { text } if text == "s"));
    assert!(matches!(parse_msg_content(10002, "s"), MsgContent::System { text } if text == "s"));
    match parse_msg_content(0x1_0000_0063, "raw") {
        MsgContent::Unknown { raw, msg_type } => {
            assert_eq!(raw, "raw");
            assert_eq!(msg_type, 0x1_0000_0063);
        }
        other => panic!("{:?}", other),
    }
}

#[test]
fn flags_do_not_change_the_content() {
    let x = r#"<msg><emoji cdnurl="e"/></msg>"#;
    let a = parse_msg_content(47, x).preview(100);
    let b = parse_msg_content(47 + (5i64 << 32), x).preview(100);
    assert_eq!(a, b);
    let events = read_events(x);
    assert_eq!(content_from(47, x, &events).preview(100), a);
}

#[test]
fn previews_read_in_one_line() {
    let app = |title: Option<&str>, desc: Option<&str>, app_type: Option<i32>| {
        MsgContent::App {
            title: title.map(String::from),
            desc: desc.map(String::from),
            url: None,
            app_type,
        }
        .preview(100)
    };
    assert_eq!(MsgContent::Text { text: "hi".to_string() }.preview(40), "hi");
    assert_eq!(MsgContent::Image { path: None }.preview(40), "[图片]");
    assert_eq!(MsgContent::Voice { duration_ms: Some(2999) }.preview(40), "[语音 2s]");
    assert_eq!(MsgContent::Voice { duration_ms: Some(999) }.preview(40), "[语音 999ms]");
    assert_eq!(MsgContent::Voice { duration_ms: Some(0) }.preview(40), "[语音]");
    assert_eq!(MsgContent::Voice { duration_ms: None }.preview(40), "[语音]");
    assert_eq!(MsgContent::Video { thumb_path: None }.preview(40), "[视频]");
    assert_eq!(MsgContent::Emoji { url: Some("u".to_string()) }.preview(40), "[表情] u");
    assert_eq!(MsgContent::Emoji { url: None }.preview(40), "[表情] ");
    assert_eq!(app(Some("歌"), None, Some(3)), "[音乐] 歌");
    assert_eq!(app(None, Some("d"), Some(33)), "[小程序] d");
    assert_eq!(app(None, None, Some(36)), "[小程序]");
    assert_eq!(app(Some("x"), None, Some(19)), "[转发] x");
    assert_eq!(app(Some("x"), None, Some(42)), "[名片] x");
    assert_eq!(app(Some("x"), None, Some(2000)), "[转账] x");
    assert_eq!(app(Some("x"), None, Some(2001)), "[红包] x");
    assert_eq!(app(Some("a.TXT"), None, Some(6)), "[文件] a.TXT");
    assert_eq!(app(Some("Report.PDF"), None, None), "[文件] Report.PDF");
    assert_eq!(app(Some("Install.AP\u{212a}"), None, None), "[文件] Install.AP\u{212a}");
    assert_eq!(app(Some("site"), Some("d"), Some(5)), "[链接] site");
    assert_eq!(app(Some("report.pdf"), None, Some(5)), "[链接] report.pdf");
    assert_eq!(MsgContent::System { text: "s".to_string() }.preview(40), "[系统] s");
    assert_eq!(MsgContent::Unknown { raw: "r".to_string(), msg_type: -3 }.preview(40), "[type=-3]");
    assert_eq!(MsgContent::Text { text: "微信微信".to_string() }.preview(7), "微信...");
    assert_eq!(MsgContent::Image { path: None }.type_label(), "图片");
    assert_eq!(MsgContent::Unknown { raw: String::new(), msg_type: 0 }.type_label(), "未知");
}

#[test]
fn labels_follow_number_then_title() {
    assert_eq!(app_label(Some(6), "x"), "文件");
    assert_eq!(app_label(Some(5), "report.pdf"), "链接");
    assert_eq!(app_label(Some(0), "a.7z"), "链接");
    assert_eq!(app_label(None, "a.7z"), "文件");
    assert_eq!(app_label(None, "a.7Z"), "链接");
    for e in ["pdf", "doc", "docx", "xls", "xlsx", "ppt", "pptx", "zip", "rar", "7z", "txt", "csv", "apk", "exe", "dmg"] {
        assert!(looks_like_file(&format!("f.{}", e)));
        assert!(!looks_like_file(&format!("f.{}x.", e)));
    }
}

#[test]
fn stored_content_is_unpacked() {
    let packed = zstd::encode_all("压缩的内容".as_bytes(), 3).unwrap();
    assert_eq!(decompress_wcdb_content(&packed), "压缩的内容");
    assert_eq!(decompress_wcdb_content(&b"plain".to_vec()), "plain");
    let broken = vec![0x28, 0xB5, 0x2F, 0xFD, 0x00];
    assert_eq!(decompress_wcdb_content(&broken), String::from_utf8_lossy(&broken).to_string());
    assert_eq!(decompress_wcdb_content(&vec![b'a', 0xff]), "a\u{fffd}");
    assert_eq!(wcdb_get_text(&Cell::Blob(packed)), "压缩的内容");
    assert_eq!(wcdb_get_text(&Cell::Null), "");
    assert_eq!(wcdb_get_text(&Cell::Integer(5)), "");
    assert_eq!(wcdb_get_text(&Cell::BadText), "");
    assert_eq!(texts_in(&vec![t("a"), Cell::Null, t("b"), Cell::Blob(vec![1])]), vec!["a", "b"]);
}

#[test]
fn contacts_show_remark_then_nickname_then_account() {
    let row = |u: Cell, n: &str, r: &str| ContactRow { username: u, nick_name: t(n), remark: t(r), alias: Cell::Null };
    let rows = vec![
        row(t("a"), "nick", "remark"),
        row(t("b"), "nick", ""),
        row(t("c"), "", ""),
        row(Cell::Null, "lost", ""),
        row(t("a"), "later", ""),
    ];
    let (mut contacts, count) = load_contacts(&rows);
    assert_eq!(count, 4);
    assert_eq!(contacts.len(), 3);
    assert_eq!(resolve_name(&contacts, "a"), "later");
    assert_eq!(resolve_name(&contacts, "b"), "nick");
    assert_eq!(resolve_name(&contacts, "c"), "c");
    assert_eq!(resolve_name(&contacts, "nobody"), "nobody");
    let rooms = vec![
        RoomRow { username: t("r@chatroom"), nick_name: t("Room") },
        RoomRow { username: t("b"), nick_name: t("other") },
        RoomRow { username: t("x@chatroom"), nick_name: Cell::Null },
    ];
    add_rooms(&mut contacts, &rooms);
    assert_eq!(contacts.len(), 4);
    assert_eq!(resolve_name(&contacts, "r@chatroom"), "Room");
    assert_eq!(resolve_name(&contacts, "b"), "nick");
    assert_eq!(resolve_name(&contacts, "x@chatroom"), "x@chatroom");
}

#[test]
fn sessions_keep_readable_rows() {
    let (contacts, _) = load_contacts(&vec![ContactRow {
        username: t("a"),
        nick_name: t("A"),
        remark: Cell::Null,
        alias: Cell::Null,
    }]);
    let row = |u: Cell, n: Cell| SessionRow {
        username: u,
        unread_count: n,
        summary: Cell::Null,
        last_timestamp: Cell::Integer(5),
        last_msg_sender: t("s"),
    };
    let rows = vec![
        row(t("a"), Cell::Integer(3)),
        row(t("b"), Cell::Null),
        row(Cell::Null, Cell::Null),
        row(t("c"), Cell::Integer(1 << 40)),
        row(t("d"), t("3")),
    ];
    let sessions = read_sessions(&rows, &contacts);
    assert_eq!(sessions.len(), 2);
    assert_eq!(sessions[0].display_name, "A");
    assert_eq!(sessions[0].unread_count, 3);
    assert_eq!(sessions[0].last_timestamp, 5);
    assert_eq!(sessions[0].summary, "");
    assert_eq!(sessions[1].display_name, "b");
    assert_eq!(sessions[1].unread_count, 0);
}

#[test]
fn rows_need_integers_where_integers_belong() {
    let row = |id: Cell, status: Cell| MsgRow {
        local_id: id,
        server_id: Cell::Null,
        create_time: Cell::Integer(3),
        content: t("c"),
        msg_type: Cell::Integer(1),
        sender: Cell::Blob(vec![b'w', 0xff]),
        status,
        source: Cell::Null,
    };
    let msgs = read_rows(&vec![
        row(Cell::Integer(1), Cell::Null),
        row(Cell::Null, Cell::Null),
        row(Cell::Integer(2), t("x")),
        row(Cell::Integer(4), Cell::Integer(2)),
    ]);
    assert_eq!(msgs.len(), 2);
    assert_eq!(msgs[0].local_id, 1);
    assert_eq!(msgs[0].server_id, 0);
    assert_eq!(msgs[0].talker, "w\u{fffd}");
    assert_eq!(msgs[1].local_id, 4);
    assert_eq!(msgs[1].status, 2);
}

#[test]
fn senders_are_split_off_group_texts() {
    assert_eq!(split_sender("wxid_a:\nhello"), Some(("wxid_a".to_string(), "hello".to_string())));
    assert_eq!(split_sender("wxid_a:\r\nhi"), Some(("wxid_a".to_string(), "hi".to_string())));
    assert_eq!(split_sender("a:\r\nb:\nc"), Some(("a".to_string(), "b:\nc".to_string())));
    assert_eq!(split_sender("a:\rb"), None);
    assert_eq!(split_sender("a b:\nhello"), None);
    assert_eq!(split_sender(":\nhello"), None);
    assert_eq!(split_sender("no sender"), None);
    let long = "x".repeat(50);
    assert_eq!(split_sender(&format!("{}:\nq", long)), None);
    assert_eq!(
        split_sender(&format!("{}:\nq", "x".repeat(49))),
        Some(("x".repeat(49), "q".to_string()))
    );
}

#[test]
fn own_messages_are_told_by_status() {
    assert!(is_own(0, 1));
    assert!(!is_own(2, 1));
    assert!(!is_own(3, 1));
    assert!(is_own(4, 1));
    assert!(!is_own(0, 10000));
    assert!(!is_own(0, 10002));
    assert!(!is_own(-1, 1));
    assert!(is_own(-3, 1));
}

#[test]
fn group_messages_get_sender_and_mentions() {
    let (contacts, _) = load_contacts(&vec![
        ContactRow { username: t("wxid_a"), nick_name: t("甲"), remark: Cell::Null, alias: Cell::Null },
        ContactRow { username: t("r@chatroom"), nick_name: t("群"), remark: Cell::Null, alias: Cell::Null },
    ]);
    let source = "<msgsource><atuserlist>wxid_me, wxid_b,, </atuserlist></msgsource>";
    let m = raw("r@chatroom", "", "wxid_a:\n@me hi", 1, 2, source);
    let msg = read_message(&m, "wxid_me", "我", &contacts);
    assert_eq!(msg.talker, "wxid_a");
    assert_eq!(msg.content, "@me hi");
    assert_eq!(msg.talker_display_name, "甲");
    assert_eq!(msg.chat_display_name, "群");
    assert_eq!(msg.at_user_list, vec!["wxid_me", "wxid_b"]);
    assert!(msg.is_at_me);
    assert!(!msg.is_self);
    let again = message_from(&m, "wxid_me", "我", &contacts, &read_events("@me hi"), &read_events(source));
    assert_eq!(format!("{:?}", again), format!("{:?}", msg));
    assert!(!read_message(&m, "", "我", &contacts).is_at_me);
}

#[test]
fn missing_senders_are_filled_in() {
    let contacts: Table<mimicwx::contacts::ContactInfo> = Table::new();
    let own = read_message(&raw("wxid_b", "", "hi", 1, 0, ""), "wxid_me", "Me", &contacts);
    assert_eq!(own.talker, "wxid_me");
    assert_eq!(own.talker_display_name, "Me");
    assert!(own.is_self);
    let received = read_message(&raw("wxid_b", "", "hi", 1, 2, ""), "wxid_me", "Me", &contacts);
    assert_eq!(received.talker, "wxid_b");
    assert_eq!(received.talker_display_name, "wxid_b");
    let windows = read_message(&raw("r@chatroom", "", "wxid_a:\r\nhi", 1, 2, ""), "wxid_me", "Me", &contacts);
    assert_eq!(windows.talker, "wxid_a");
    assert_eq!(windows.content, "hi");
    let group = read_message(&raw("r@chatroom", "", "hi", 1, 2, ""), "wxid_me", "Me", &contacts);
    assert_eq!(group.talker, "");
    let notice = read_message(&raw("wxid_b", "", "hi", 10000, 0, ""), "wxid_me", "Me", &contacts);
    assert!(!notice.is_self);
    assert_eq!(notice.talker, "wxid_b");
}
