use mimicwx::cell::Cell;
use mimicwx::contacts::{contacts_sql, rooms_sql, sessions_sql, ContactRow, RoomRow, SessionRow};
use mimicwx::db::{DbError, DbManager, SentEvent};
use mimicwx::keys::{
    file_name, find_key, find_own_account, hex_to_bytes, is_hex_readable, is_message_db, lookup_db_key, message_dbs,
    probe_sql, setup_statements, unlock, HexError, Unlock,
};
use mimicwx::marking::Marking;
use mimicwx::messages::MsgRow;
use mimicwx::number::hex_string;
use mimicwx::poll::{Answer, Poll, Question};
use mimicwx::schema::{
    build_single_table_meta, columns_sql, hash_name, key_of, max_id_sql, name_at_sql, names_sql, short_name, table_hash,
    table_row_id, tables_sql,
};
use mimicwx::wal::{has_external_modify, watch_start, FileEvent, WatchStart};

fn txt(s: &str) -> Cell {
    Cell::Text(s.to_string())
}

fn strings(v: &[&str]) -> Vec<String> {
    v.iter().map(|s| s.to_string()).collect()
}

struct FakeTable {
    db: &'static str,
    name: String,
    columns: Option<Vec<&'static str>>,
    ids: Vec<i64>,
}

struct FakeDb {
    tables: Vec<FakeTable>,
    names: Vec<&'static str>,
    other_names: Vec<(&'static str, Vec<&'static str>)>,
    asked: Vec<String>,
}

impl FakeDb {
    fn find(&self, db: &str, name: &str) -> Option<&FakeTable> {
        self.tables.iter().find(|t| t.db == db && t.name == name)
    }

    fn names_of(&self, db: &str) -> &Vec<&'static str> {
        self.other_names.iter().find(|o| o.0 == db).map(|o| &o.1).unwrap_or(&self.names)
    }

    fn answer(&mut self, q: &Question) -> Answer {
        self.asked.push(format!("{:?}", q).split(' ').next().unwrap().to_string());
        match q {
            Question::Tables { db } => Answer::Tables(
                self.tables.iter().filter(|t| t.db == db).map(|t| Cell::Text(t.name.clone())).collect(),
            ),
            Question::Columns { db, table, sql } => {
                assert_eq!(sql, &format!("PRAGMA table_info({})", table));
                Answer::Columns(
                    self.find(db, table)
                        .and_then(|t| t.columns.as_ref())
                        .map(|c| c.iter().map(|s| txt(s)).collect()),
                )
            }
            Question::Rows { db, sql, after } => {
                let name = sql.split("FROM [").nth(1).unwrap().split(']').next().unwrap();
                let table = self.find(db, name).unwrap();
                Answer::Rows(Some(
                    table
                        .ids
                        .iter()
                        .filter(|id| *id > after)
                        .map(|id| MsgRow {
                            local_id: Cell::Integer(*id),
                            server_id: Cell::Null,
                            create_time: Cell::Null,
                            content: Cell::Text(format!("m{}", id)),
                            msg_type: Cell::Integer(1),
                            sender: Cell::Null,
                            status: Cell::Integer(if id % 2 == 0 { 0 } else { 2 }),
                            source: Cell::Null,
                        })
                        .collect(),
                ))
            }
            Question::NameAt { db, row, .. } => {
                Answer::NameAt(self.names_of(db).get((*row - 1) as usize).map(|n| txt(n)))
            }
            Question::Names { db, .. } => Answer::Names(self.names_of(db).iter().map(|n| txt(n)).collect()),
            Question::Greatest { db, sql } => {
                let name = sql.split("FROM [").nth(1).unwrap().split(']').next().unwrap();
                let table = self.find(db, name).unwrap();
                Answer::Greatest(Some(match table.ids.iter().max() {
                    Some(id) => Cell::Integer(*id),
                    None => Cell::Null,
                }))
            }
            Question::Nothing => panic!("nothing was asked"),
        }
    }

    fn run(&mut self, mut poll: Poll) -> Poll {
        loop {
            let q = poll.question();
            if let Question::Nothing = q {
                return poll;
            }
            let a = self.answer(&q);
            poll.answer(a);
        }
    }

    fn mark(&mut self, mut marking: Marking) -> Marking {
        loop {
            let q = marking.question();
            if let Question::Nothing = q {
                return marking;
            }
            let a = self.answer(&q);
            marking.answer(a);
        }
    }
}

fn fake() -> FakeDb {
    let full = vec!["local_id", "server_id", "create_time", "message_content", "local_type", "real_sender_id", "status", "source"];
    FakeDb {
        tables: vec![
            FakeTable {
                db: "message/message_0.db",
                name: format!("Msg_{}", hash_name("wxid_b")),
                columns: Some(full.clone()),
                ids: vec![1, 2, 3],
            },
            FakeTable { db: "message/message_0.db", name: "ChatMsg_2".to_string(), columns: Some(full.clone()), ids: vec![5] },
            FakeTable { db: "message/message_0.db", name: "Chat_unknown".to_string(), columns: Some(full), ids: vec![9] },
            FakeTable { db: "message/message_1.db", name: "MSG_none".to_string(), columns: Some(vec!["id"]), ids: vec![4] },
            FakeTable { db: "message/message_1.db", name: "MSG_gone".to_string(), columns: None, ids: vec![4] },
        ],
        names: vec!["wxid_a", "r@chatroom", "wxid_b"],
        other_names: Vec::new(),
        asked: Vec::new(),
    }
}

fn manager() -> DbManager {
    DbManager::new("00".repeat(32), &strings(&["/", "home", "wxid_me_c024", "db_storage"])).unwrap()
}

#[test]
fn a_poll_finds_new_messages_in_every_table() {
    let mut db = fake();
    let mut m = manager();
    assert_eq!(m.self_wxid, "wxid_me");
    let dbs = strings(&["message/message_0.db", "message/message_1.db"]);
    let poll = db.run(m.start_poll(dbs.clone()));
    let (msgs, sent) = m.get_new_messages(poll);
    let got: Vec<(i64, String)> = msgs.iter().map(|x| (x.local_id, x.chat.clone())).collect();
    assert_eq!(
        got,
        vec![
            (1, "wxid_b".to_string()),
            (2, "wxid_b".to_string()),
            (3, "wxid_b".to_string()),
            (5, "r@chatroom".to_string()),
            (9, "Chat_unknown".to_string()),
        ]
    );
    assert_eq!(sent, vec!["m2"]);
    assert_eq!(msgs[1].talker, "wxid_me");
    let key = format!("message_0::Msg_{}", hash_name("wxid_b"));
    assert_eq!(m.watermarks.get(&key), Some(&3));
    assert_eq!(m.watermarks.get("message_0::ChatMsg_2"), Some(&5));
    assert_eq!(m.table_meta_cache.len(), 3);
}

#[test]
fn no_message_is_delivered_twice() {
    let mut db = fake();
    let mut m = manager();
    let dbs = strings(&["message/message_0.db"]);
    let poll = db.run(m.start_poll(dbs.clone()));
    assert_eq!(m.get_new_messages(poll).0.len(), 5);
    let poll = db.run(m.start_poll(dbs.clone()));
    assert_eq!(m.get_new_messages(poll).0.len(), 0);
    db.tables[0].ids.push(8);
    db.asked.clear();
    let poll = db.run(m.start_poll(dbs));
    let (msgs, sent) = m.get_new_messages(poll);
    assert_eq!(msgs.len(), 1);
    assert_eq!(msgs[0].local_id, 8);
    assert_eq!(sent, vec!["m8"]);
    assert!(!db.asked.iter().any(|q| q == "Columns"));
}

#[test]
fn marking_everything_leaves_nothing_new() {
    let mut db = fake();
    let mut m = manager();
    let dbs = strings(&["message/message_0.db", "message/message_1.db"]);
    let marking = db.mark(Marking::start(dbs.clone()));
    m.mark_all_read(marking);
    assert_eq!(m.watermarks.len(), 3);
    let poll = db.run(m.start_poll(dbs));
    let (msgs, sent) = m.get_new_messages(poll);
    assert!(msgs.is_empty() && sent.is_empty());
}

#[test]
fn every_database_names_its_own_chats() {
    let mut db = fake();
    let columns = db.tables[0].columns.clone();
    let name = format!("Msg_{}", hash_name("wxid_late"));
    db.tables.push(FakeTable { db: "message/message_1.db", name, columns, ids: vec![8] });
    db.other_names.push(("message/message_1.db", vec!["wxid_late"]));
    let mut m = manager();
    let poll = db.run(m.start_poll(strings(&["message/message_0.db", "message/message_1.db"])));
    let (msgs, _) = m.get_new_messages(poll);
    let last = msgs.last().unwrap();
    assert_eq!(last.local_id, 8);
    assert_eq!(last.chat, "wxid_late");
}

#[test]
fn unchanged_databases_give_nothing_more() {
    let mut db = fake();
    let mut m = manager();
    let dbs = strings(&["message/message_0.db", "message/message_1.db"]);
    let poll = db.run(m.start_poll(dbs.clone()));
    assert_eq!(m.get_new_messages(poll).0.len(), 5);
    let key = format!("message_0::Msg_{}", hash_name("wxid_b"));
    let poll = db.run(m.start_poll(dbs));
    assert_eq!(poll.marks.get(&key), Some(&3));
    assert_eq!(poll.marks.get("message_0::ChatMsg_2"), Some(&5));
    assert_eq!(poll.marks.get("message_0::Chat_unknown"), Some(&9));
    assert_eq!(poll.marks.len(), 3);
    assert!(m.get_new_messages(poll).0.is_empty());
    assert_eq!(m.watermarks.len(), 3);
}

#[test]
fn after_marking_only_later_messages_come() {
    let mut db = fake();
    let mut m = manager();
    let dbs = strings(&["message/message_0.db"]);
    let marking = db.mark(Marking::start(dbs.clone()));
    m.mark_all_read(marking);
    db.tables[0].ids.push(7);
    db.tables[0].ids.push(6);
    let poll = db.run(m.start_poll(dbs));
    let (msgs, _) = m.get_new_messages(poll);
    let ids: Vec<i64> = msgs.iter().map(|x| x.local_id).collect();
    assert_eq!(ids, vec![7, 6]);
    let key = format!("message_0::Msg_{}", hash_name("wxid_b"));
    assert_eq!(m.watermarks.get(&key), Some(&7));
    assert_eq!(m.watermarks.get("message_0::ChatMsg_2"), Some(&5));
}

#[test]
fn wrong_answers_change_nothing() {
    let m = manager();
    let mut poll = m.start_poll(strings(&["message/message_0.db"]));
    let before = format!("{:?}", poll);
    poll.answer(Answer::Rows(None));
    assert_eq!(format!("{:?}", poll), before);
    let mut marking = Marking::start(strings(&["message/message_0.db"]));
    marking.answer(Answer::Names(vec![]));
    assert!(matches!(marking.question(), Question::Tables { .. }));
}

#[test]
fn failed_queries_are_passed_over() {
    let m = manager();
    let mut poll = m.start_poll(strings(&["message/message_0.db"]));
    poll.answer(Answer::Tables(vec![txt("MSG_a"), Cell::Null, txt("MSG_b")]));
    poll.answer(Answer::Columns(None));
    poll.answer(Answer::Columns(Some(vec![txt("Content")])));
    match poll.question() {
        Question::Rows { sql, after, .. } => {
            assert_eq!(after, 0);
            assert_eq!(
                sql,
                "SELECT rowid, 0, 0, Content, 0, '', 0, '' FROM [MSG_b] WHERE rowid > ?1 ORDER BY rowid ASC"
            );
        }
        q => panic!("{:?}", q),
    }
    poll.answer(Answer::Rows(None));
    assert!(matches!(poll.question(), Question::Nothing));
}

#[test]
fn tables_are_read_by_their_columns() {
    let meta = build_single_table_meta(
        "ChatMsg_1",
        &strings(&["LocalId", "createTime", "compress_content", "msgContent", "Type", "talkerId", "msgSvrId", "STATUS", "Source"]),
    )
    .unwrap();
    assert_eq!(meta.id_col, "LocalId");
    assert_eq!(meta.table, "ChatMsg_1");
    assert_eq!(
        meta.select_sql,
        "SELECT LocalId, msgSvrId, createTime, compress_content, Type, talkerId, STATUS, Source FROM [ChatMsg_1] \
         WHERE LocalId > ?1 ORDER BY LocalId ASC"
    );
    assert!(build_single_table_meta("t", &strings(&["local_id", "status"])).is_none());
}

#[test]
fn tables_name_their_chats() {
    assert_eq!(table_row_id("ChatMsg_12"), Some(12));
    assert_eq!(table_row_id("ChatMsg_x"), None);
    assert_eq!(table_row_id("Msg_12"), None);
    assert_eq!(table_hash("Msg_ab"), Some("ab".to_string()));
    assert_eq!(table_hash("MSG_ab"), Some("ab".to_string()));
    assert_eq!(table_hash("Chat_ab"), Some("ab".to_string()));
    assert_eq!(table_hash("ChatMsg_ab"), None);
    assert_eq!(hash_name("abc"), "900150983cd24fb0d6963f7d28e17f72");
    assert_eq!(short_name("message/message_0.db"), "message_0");
    assert_eq!(short_name("message/message/a.db.db"), "a");
}

#[test]
fn contacts_are_refreshed_with_the_own_name() {
    let mut m = manager();
    assert_eq!(m.self_display_name, "我");
    let row = |u: &str, n: &str| ContactRow { username: txt(u), nick_name: txt(n), remark: Cell::Null, alias: Cell::Null };
    let rooms = vec![RoomRow { username: txt("r@chatroom"), nick_name: txt("Room") }];
    assert_eq!(m.refresh_contacts(&vec![row("wxid_a", "A"), row("wxid_me", "Me")], &rooms), 2);
    assert_eq!(m.self_display_name, "Me");
    assert_eq!(m.get_contacts().len(), 3);
    assert_eq!(m.resolve_name("r@chatroom"), "Room");
    assert_eq!(m.refresh_contacts(&vec![row("wxid_b", "B")], &Vec::new()), 1);
    assert_eq!(m.self_display_name, "Me");
    assert_eq!(m.resolve_name("wxid_a"), "wxid_a");
    let sessions = m.get_sessions(&vec![SessionRow {
        username: txt("wxid_b"),
        unread_count: Cell::Null,
        summary: txt("s"),
        last_timestamp: Cell::Null,
        last_msg_sender: Cell::Null,
    }]);
    assert_eq!(sessions[0].display_name, "B");
}

#[test]
fn keys_must_be_hex_of_the_right_length() {
    assert!(DbManager::new("ab".repeat(48), &Vec::new()).is_ok());
    assert!(matches!(DbManager::new("ab".repeat(10), &Vec::new()), Err(DbError::KeyLength(10))));
    assert!(matches!(DbManager::new("abc".to_string(), &Vec::new()), Err(DbError::KeyFormat(HexError::OddLength))));
    match DbManager::new("zz".to_string(), &Vec::new()) {
        Err(DbError::KeyFormat(HexError::BadPair { pair })) => assert_eq!(pair, "zz"),
        other => panic!("{:?}", other),
    }
    assert_eq!(hex_to_bytes("00fFa1").unwrap(), vec![0, 0xff, 0xa1]);
    assert_eq!(hex_to_bytes("+f").unwrap(), vec![15]);
    assert!(hex_to_bytes("-f").is_err());
    assert!(hex_to_bytes("é").is_err());
    assert!(is_hex_readable("é"));
    assert!(is_hex_readable("zz微x"));
    assert!(!is_hex_readable("微微"));
    assert!(is_hex_readable("微x1"));
    assert!(!is_hex_readable("aéb"));
    let bytes = vec![0u8, 1, 0x7f, 0x80, 0xff];
    assert_eq!(hex_to_bytes(&hex_string(&bytes)).unwrap(), bytes);
}

#[test]
fn bad_keys_are_told() {
    assert_eq!(DbManager::new("ab".repeat(10), &Vec::new()).unwrap_err().text(), "密钥长度必须为 32 或 48 字节, 实际: 10");
    assert_eq!(DbManager::new("zz".to_string(), &Vec::new()).unwrap_err().text(), "密钥 hex 格式错误");
}

#[test]
fn queries_run_on_a_real_database() {
    let c = rusqlite::Connection::open_in_memory().unwrap();
    c.execute_batch(
        "CREATE TABLE contact (username TEXT, nick_name TEXT, remark TEXT, alias TEXT);
         CREATE TABLE chat_room (username TEXT);
         CREATE TABLE SessionTable (username TEXT, unread_count INT, summary TEXT, last_timestamp INT,
             last_msg_sender TEXT, sort_timestamp INT);
         CREATE TABLE Name2Id (user_name TEXT);
         CREATE TABLE ChatMsg_1 (local_id INT, message_content TEXT);
         CREATE TABLE Msg_ab (local_id INT, message_content TEXT);
         CREATE TABLE Other (local_id INT);
         INSERT INTO contact VALUES ('r@chatroom', 'Room', '', '');
         INSERT INTO chat_room VALUES ('r@chatroom'), (NULL);
         INSERT INTO SessionTable VALUES ('old', 0, '', 0, '', 1), ('new', 0, '', 0, '', 2);
         INSERT INTO Name2Id VALUES ('wxid_a'), ('wxid_b');
         INSERT INTO ChatMsg_1 VALUES (4, 'four'), (9, 'nine'), (2, 'two');",
    )
    .unwrap();
    let column = |sql: &str, at: usize| -> Vec<String> {
        let mut q = c.prepare(sql).unwrap();
        let rows = q.query_map([], |r| r.get::<_, String>(at)).unwrap();
        rows.map(|r| r.unwrap()).collect()
    };
    assert_eq!(column(contacts_sql(), 0), vec!["r@chatroom"]);
    assert_eq!(column(rooms_sql(), 1), vec!["Room"]);
    assert_eq!(column(sessions_sql(), 0), vec!["new", "old"]);
    let mut tables = column(tables_sql(), 0);
    tables.sort();
    // LIKE ignores case, so the list of group chats is named here too.
    assert_eq!(tables, vec!["ChatMsg_1", "Msg_ab", "chat_room"]);
    assert_eq!(column(names_sql(), 0), vec!["wxid_a", "wxid_b"]);
    let second: String = c.query_row(name_at_sql(), [2], |r| r.get(0)).unwrap();
    assert_eq!(second, "wxid_b");
    let columns = column(&columns_sql("ChatMsg_1"), 1);
    assert_eq!(columns, vec!["local_id", "message_content"]);
    let greatest: i64 = c.query_row(&max_id_sql("local_id", "ChatMsg_1"), [], |r| r.get(0)).unwrap();
    assert_eq!(greatest, 9);
    let count: i64 = c.query_row(probe_sql(), [], |r| r.get(0)).unwrap();
    assert_eq!(count, 7);
    let meta = build_single_table_meta("ChatMsg_1", &columns).unwrap();
    let mut q = c.prepare(&meta.select_sql).unwrap();
    let rows = q.query_map([2i64], |r| Ok((r.get::<_, i64>(0)?, r.get::<_, String>(3)?))).unwrap();
    let got: Vec<(i64, String)> = rows.map(|r| r.unwrap()).collect();
    assert_eq!(got, vec![(4, "four".to_string()), (9, "nine".to_string())]);
}

#[test]
fn marks_of_different_tables_do_not_mix() {
    let key = |db: &str, table: &str| key_of(&short_name(db), table);
    assert_eq!(key("message/message_0.db", "MSG_a"), "message_0::MSG_a");
    assert_ne!(key("message/message_0.db", "MSG_a"), key("message/message_1.db", "MSG_a"));
    assert_ne!(key("message/message_0.db", "MSG_a"), key("message/message_0.db", "MSG_b"));
}

#[test]
fn databases_find_their_own_keys() {
    let json = r#"{"message/message_0.db": "k0", "x/contact.db": "kc", "zz/message_1.db": "k1", "a/message_1.db": "k2"}"#;
    assert_eq!(lookup_db_key(json, "message/message_0.db"), Some("k0".to_string()));
    assert_eq!(lookup_db_key(json, "contact/contact.db"), Some("kc".to_string()));
    assert_eq!(lookup_db_key(json, "message/message_1.db"), Some("k2".to_string()));
    assert_eq!(lookup_db_key(json, "session/session.db"), None);
    assert_eq!(lookup_db_key("not json", "x"), None);
    assert_eq!(lookup_db_key(r#"{"a": 1}"#, "a"), None);
    let pairs = vec![("a/b.db".to_string(), "1".to_string())];
    assert_eq!(find_key(&pairs, "c/b.db"), Some("1".to_string()));
    assert_eq!(find_key(&pairs, ".."), Some("1".to_string()));
    for p in ["a/b.db", "a/b.db/", "b", "", "/", "a/..", "a/./.", "a/b/.", ".", "..", "a//b"] {
        let want = std::path::Path::new(p).file_name().and_then(|f| f.to_str()).unwrap_or("");
        assert_eq!(file_name(p), want, "{}", p);
    }
}

#[test]
fn databases_are_unlocked_by_the_kind_of_key() {
    let hex = "ab".repeat(48);
    match unlock(&Some(hex.clone()), "00", &vec![0]) {
        Unlock::Statement { sql } => assert_eq!(sql, format!("PRAGMA key = \"x'{}'\";", hex)),
        other => panic!("{:?}", other),
    }
    match unlock(&None, "0a0b", &vec![10, 11]) {
        Unlock::RawKey { key } => assert_eq!(key, vec![10, 11]),
        other => panic!("{:?}", other),
    }
    match unlock(&Some("zz".to_string()), "0a", &vec![10]) {
        Unlock::RawKey { key } => assert!(key.is_empty()),
        other => panic!("{:?}", other),
    }
    assert_eq!(setup_statements().len(), 4);
    assert_eq!(setup_statements()[2], "PRAGMA query_only = ON;");
}

#[test]
fn only_numbered_databases_hold_messages() {
    assert!(is_message_db("message_0.db"));
    assert!(is_message_db("message_12.db"));
    assert!(!is_message_db("message_fts.db"));
    assert!(!is_message_db("message_resource.db"));
    assert!(!is_message_db("message_.db"));
    assert!(!is_message_db("message_0.db-wal"));
    assert!(!is_message_db("xmessage_0.db"));
    assert_eq!(
        message_dbs(&strings(&["message_1.db", "message_fts.db", "message_0.db"])),
        vec!["message/message_1.db", "message/message_0.db"]
    );
}

#[test]
fn accounts_lose_the_mark_of_the_device() {
    let account = |p: &str| find_own_account(&strings(&["home", p, "wxid_other"]));
    assert_eq!(account("wxid_abcdefgh_c024"), "wxid_abcdefgh");
    assert_eq!(account("wxid_abcdefgh"), "wxid_abcdefgh");
    assert_eq!(account("wxid_abcdefgh_x"), "wxid_abcdefgh_x");
    assert_eq!(account("wxid_abcdefgh_1234567"), "wxid_abcdefgh_1234567");
    assert_eq!(account("wxid_abcdefgh_a-b"), "wxid_abcdefgh_a-b");
    assert_eq!(account("wxid_q_wxid1"), "wxid_q_wxid1");
    assert_eq!(account("other"), "wxid");
    assert_eq!(find_own_account(&strings(&["home"])), "");
}

#[test]
fn sent_texts_are_recognised() {
    let content = |s: &str| SentEvent::Content(s.to_string());
    let m = manager();
    assert_eq!(m.verify_sent("hello", &content(" hello ")), Some(true));
    assert_eq!(m.verify_sent("hello", &content("hello world")), Some(true));
    assert_eq!(m.verify_sent("hello world", &content("world")), Some(true));
    assert_eq!(m.verify_sent("hello", &content("other")), None);
    assert_eq!(m.verify_sent("hello", &content("  ")), None);
    assert_eq!(m.verify_sent("hello", &SentEvent::Lagged), None);
    assert_eq!(m.verify_sent("hello", &SentEvent::Closed), Some(false));
    assert_eq!(m.verify_sent("hello", &SentEvent::Timeout), Some(false));
}

#[test]
fn only_changes_by_others_in_the_directory_matter() {
    let e = |pid: i32, path: &str| FileEvent { pid, path: path.to_string() };
    assert!(has_external_modify(&vec![e(1, "/x"), e(2, "/db/message/a")], 1, "/db/message"));
    assert!(!has_external_modify(&vec![e(1, "/db/message/a")], 1, "/db/message"));
    assert!(!has_external_modify(&vec![e(2, "/db/other")], 1, "/db/message"));
    assert!(!has_external_modify(&vec![e(2, "/db/message_bak/a")], 1, "/db/message"));
    assert!(!has_external_modify(&Vec::new(), 1, "/db/message"));
    assert_eq!(watch_start(WatchStart::AwaitDir, false, true), WatchStart::AwaitDir);
    assert_eq!(watch_start(WatchStart::AwaitDir, true, false), WatchStart::AwaitLog);
    assert_eq!(watch_start(WatchStart::AwaitDir, true, true), WatchStart::Watch);
    assert_eq!(watch_start(WatchStart::AwaitLog, false, true), WatchStart::Watch);
    assert_eq!(watch_start(WatchStart::Watch, false, false), WatchStart::Watch);
}
