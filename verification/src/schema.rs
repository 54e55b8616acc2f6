//! Message tables: which of their columns matter, how they are queried, and
//! which chat a table belongs to.
use vstd::prelude::*;
use vstd::utf8::*;
use crate::number;
use crate::outside;
use crate::table::Table;
use crate::text;

verus! {

// ---------------------------------------------------------------------
// Columns
// ---------------------------------------------------------------------

/// How a message table is read.
#[derive(Debug, Clone)]
pub struct TableMeta {
    /// The table's name.
    pub table: String,
    /// The query for the rows behind a given id.
    pub select_sql: String,
    /// The column that holds the id.
    pub id_col: String,
}

/// A table's description as a mathematical value.
pub struct MetaView {
    pub table: Seq<char>,
    pub select_sql: Seq<char>,
    pub id_col: Seq<char>,
}

impl View for TableMeta {
    type V = MetaView;

    open spec fn view(&self) -> MetaView {
        MetaView { table: self.table@, select_sql: self.select_sql@, id_col: self.id_col@ }
    }
}

impl TableMeta {
    /// A copy of this description.
    pub fn copy(&self) -> (r: TableMeta)
        ensures
            r@ == self@,
    {
        TableMeta {
            table: self.table.clone(),
            select_sql: self.select_sql.clone(),
            id_col: self.id_col.clone(),
        }
    }
}

/// The characters of each string of a list.
pub open spec fn str_views(list: Seq<&str>) -> Seq<Seq<char>> {
    Seq::new(list.len(), |i: int| list[i]@)
}

/// Whether a column goes by one of some names, whatever the case.
pub open spec fn goes_by(column: Seq<char>, names: Seq<Seq<char>>) -> bool {
    exists|i: int| 0 <= i < names.len() && text::same_but_case(column, #[trigger] names[i])
}

/// The first column that goes by one of some names.
pub open spec fn pick(columns: Seq<Seq<char>>, names: Seq<Seq<char>>) -> Option<Seq<char>>
    decreases columns.len(),
{
    if columns.len() == 0 {
        None
    } else if goes_by(columns[0], names) {
        Some(columns[0])
    } else {
        pick(columns.skip(1), names)
    }
}

/// The first column that goes by one of some names, or a stand-in.
pub open spec fn pick_or(
    columns: Seq<Seq<char>>,
    names: Seq<Seq<char>>,
    other: Seq<char>,
) -> Seq<char> {
    match pick(columns, names) {
        Some(c) => c,
        None => other,
    }
}

pub open spec fn id_names() -> Seq<Seq<char>> {
    seq!["local_id"@, "localId"@, "rowid"@]
}

pub open spec fn time_names() -> Seq<Seq<char>> {
    seq!["create_time"@, "createTime"@]
}

pub open spec fn content_names() -> Seq<Seq<char>> {
    seq!["message_content"@, "content"@, "msgContent"@, "compress_content"@]
}

pub open spec fn type_names() -> Seq<Seq<char>> {
    seq!["local_type"@, "type"@, "msgType"@]
}

pub open spec fn talker_names() -> Seq<Seq<char>> {
    seq!["real_sender_id"@, "talker"@, "talkerId"@]
}

pub open spec fn server_names() -> Seq<Seq<char>> {
    seq!["server_id"@, "svrid"@, "msgSvrId"@]
}

/// The query for the rows of a table behind a given id, in the order of ids.
pub open spec fn select_text(
    id: Seq<char>,
    server: Seq<char>,
    time: Seq<char>,
    content: Seq<char>,
    kind: Seq<char>,
    talker: Seq<char>,
    status: Seq<char>,
    source: Seq<char>,
    table: Seq<char>,
) -> Seq<char> {
    "SELECT "@ + id + ", "@ + server + ", "@ + time + ", "@ + content + ", "@ + kind + ", "@
        + talker + ", "@ + status + ", "@ + source + " FROM ["@ + table + "] WHERE "@ + id
        + " > ?1 ORDER BY "@ + id + " ASC"@
}

/// How a table with the given columns is read; not at all where no column
/// holds the content.
pub open spec fn meta_of(table: Seq<char>, columns: Seq<Seq<char>>) -> Option<MetaView> {
    let id = pick_or(columns, id_names(), "rowid"@);
    match pick(columns, content_names()) {
        Some(content) => Some(
            MetaView {
                table,
                id_col: id,
                select_sql: select_text(
                    id,
                    pick_or(columns, server_names(), "0"@),
                    pick_or(columns, time_names(), "0"@),
                    content,
                    pick_or(columns, type_names(), "0"@),
                    pick_or(columns, talker_names(), "''"@),
                    pick_or(columns, seq!["status"@], "0"@),
                    pick_or(columns, seq!["source"@], "''"@),
                    table,
                ),
            },
        ),
        None => None,
    }
}

/// Whether a column goes by one of some names.
fn column_goes_by(column: &str, names: &Vec<&str>) -> (r: bool)
    ensures
        r == goes_by(column@, str_views(names@)),
{
    let mut i: usize = 0;
    while i < names.len()
        invariant
            0 <= i <= names@.len(),
            forall|j: int|
                0 <= j < i ==> !text::same_but_case(column@, #[trigger] str_views(names@)[j]),
        decreases names@.len() - i,
    {
        let name: &str = names[i];
        assert(str_views(names@)[i as int] == name@);
        if text::eq_ignore_case(column, name) {
            return true;
        }
        i += 1;
    }
    false
}

/// The first column that goes by one of some names.
pub fn pick_column(columns: &Vec<String>, names: &Vec<&str>) -> (r: Option<String>)
    ensures
        text::opt_view(r) == pick(text::views(columns@), str_views(names@)),
{
    let mut i: usize = 0;
    let ghost all = text::views(columns@);
    assert(all.skip(0) =~= all);
    while i < columns.len()
        invariant
            0 <= i <= columns@.len(),
            all == text::views(columns@),
            pick(all, str_views(names@)) == pick(all.skip(i as int), str_views(names@)),
        decreases columns@.len() - i,
    {
        assert(all.skip(i as int)[0] == columns@[i as int]@);
        assert(all.skip(i as int).skip(1) =~= all.skip(i + 1));
        if column_goes_by(columns[i].as_str(), names) {
            return Some(columns[i].clone());
        }
        i += 1;
    }
    None
}

/// The first column that goes by one of some names, or a stand-in.
fn column_or(columns: &Vec<String>, names: &Vec<&str>, other: &str) -> (r: String)
    ensures
        r@ == pick_or(text::views(columns@), str_views(names@), other@),
{
    match pick_column(columns, names) {
        Some(c) => c,
        None => other.to_owned(),
    }
}

/// How a table with the given columns is read; nothing where no column holds
/// the content.
pub fn build_single_table_meta(table: &str, columns: &Vec<String>) -> (r: Option<TableMeta>)
    ensures
        match r {
            Some(m) => meta_of(table@, text::views(columns@)) == Some(m@),
            None => meta_of(table@, text::views(columns@)) is None,
        },
{
    let ids: Vec<&str> = vec!["local_id", "localId", "rowid"];
    let times: Vec<&str> = vec!["create_time", "createTime"];
    let contents: Vec<&str> = vec!["message_content", "content", "msgContent", "compress_content"];
    let types: Vec<&str> = vec!["local_type", "type", "msgType"];
    let talkers: Vec<&str> = vec!["real_sender_id", "talker", "talkerId"];
    let servers: Vec<&str> = vec!["server_id", "svrid", "msgSvrId"];
    let statuses: Vec<&str> = vec!["status"];
    let sources: Vec<&str> = vec!["source"];
    assert(str_views(ids@) =~= id_names());
    assert(str_views(times@) =~= time_names());
    assert(str_views(contents@) =~= content_names());
    assert(str_views(types@) =~= type_names());
    assert(str_views(talkers@) =~= talker_names());
    assert(str_views(servers@) =~= server_names());
    assert(str_views(statuses@) =~= seq!["status"@]);
    assert(str_views(sources@) =~= seq!["source"@]);
    let content = match pick_column(columns, &contents) {
        Some(c) => c,
        None => {
            return None;
        },
    };
    let id = column_or(columns, &ids, "rowid");
    let mut sql = String::new();
    sql.append("SELECT ");
    sql.append(id.as_str());
    sql.append(", ");
    sql.append(column_or(columns, &servers, "0").as_str());
    sql.append(", ");
    sql.append(column_or(columns, &times, "0").as_str());
    sql.append(", ");
    sql.append(content.as_str());
    sql.append(", ");
    sql.append(column_or(columns, &types, "0").as_str());
    sql.append(", ");
    sql.append(column_or(columns, &talkers, "''").as_str());
    sql.append(", ");
    sql.append(column_or(columns, &statuses, "0").as_str());
    sql.append(", ");
    sql.append(column_or(columns, &sources, "''").as_str());
    sql.append(" FROM [");
    sql.append(table);
    sql.append("] WHERE ");
    sql.append(id.as_str());
    sql.append(" > ?1 ORDER BY ");
    sql.append(id.as_str());
    sql.append(" ASC");
    assert(Seq::<char>::empty() + "SELECT "@ =~= "SELECT "@);
    Some(TableMeta { table: table.to_owned(), select_sql: sql, id_col: id })
}

/// The query for the names of the message tables of a database.
pub fn tables_sql() -> (r: &'static str)
    ensures
        r@
            == "SELECT name FROM sqlite_master WHERE type='table' AND (name LIKE 'ChatMsg_%' OR name LIKE 'MSG_%' OR name LIKE 'Chat_%')"@,
{
    "SELECT name FROM sqlite_master WHERE type='table' AND (name LIKE 'ChatMsg_%' OR name LIKE 'MSG_%' OR name LIKE 'Chat_%')"
}

/// The query for the name in a row of the name list.
pub fn name_at_sql() -> (r: &'static str)
    ensures
        r@ == "SELECT user_name FROM Name2Id WHERE rowid = ?1"@,
{
    "SELECT user_name FROM Name2Id WHERE rowid = ?1"
}

/// The query for all names of the name list.
pub fn names_sql() -> (r: &'static str)
    ensures
        r@ == "SELECT user_name FROM Name2Id"@,
{
    "SELECT user_name FROM Name2Id"
}

/// The query for the columns of a table.
pub fn columns_sql(table: &str) -> (r: String)
    ensures
        r@ == "PRAGMA table_info("@ + table@ + ")"@,
{
    let mut s = "PRAGMA table_info(".to_owned();
    s.append(table);
    s.append(")");
    s
}

/// The query for the greatest id of a table.
pub fn max_id_sql(id_col: &str, table: &str) -> (r: String)
    ensures
        r@ == "SELECT MAX("@ + id_col@ + ") FROM ["@ + table@ + "]"@,
{
    let mut s = "SELECT MAX(".to_owned();
    s.append(id_col);
    s.append(") FROM [");
    s.append(table);
    s.append("]");
    s
}

// ---------------------------------------------------------------------
// Keys
// ---------------------------------------------------------------------

/// What is left once a prefix has been taken off as often as it stands there.
pub open spec fn strip_all_prefix(s: Seq<char>, p: Seq<char>) -> Seq<char>
    decreases s.len(),
{
    if p.len() > 0 && text::begins(s, p) {
        strip_all_prefix(s.skip(p.len() as int), p)
    } else {
        s
    }
}

/// What is left once a suffix has been taken off as often as it stands there.
pub open spec fn strip_all_suffix(s: Seq<char>, p: Seq<char>) -> Seq<char>
    decreases s.len(),
{
    if p.len() > 0 && text::ends(s, p) {
        strip_all_suffix(s.take(s.len() - p.len()), p)
    } else {
        s
    }
}

/// The short name of a message database.
pub open spec fn db_prefix(db: Seq<char>) -> Seq<char> {
    strip_all_suffix(strip_all_prefix(db, "message/"@), ".db"@)
}

/// The key of a table in a database.
pub open spec fn table_key(db: Seq<char>, table: Seq<char>) -> Seq<char> {
    db + "::"@ + table
}

/// The short name of a message database.
pub fn short_name(db: &str) -> (r: String)
    ensures
        r@ == db_prefix(db@),
{
    let mut s = db.to_owned();
    loop
        invariant_except_break
            strip_all_prefix(db@, "message/"@) == strip_all_prefix(s@, "message/"@),
        ensures
            s@ == strip_all_prefix(db@, "message/"@),
        decreases s@.len(),
    {
        proof {
            reveal_strlit("message/");
        }
        match text::strip_prefix(s.as_str(), "message/") {
            Some(t) => {
                s = t;
            },
            None => {
                break;
            },
        }
    }
    let ghost first = s@;
    loop
        invariant_except_break
            strip_all_suffix(first, ".db"@) == strip_all_suffix(s@, ".db"@),
        ensures
            s@ == strip_all_suffix(first, ".db"@),
        decreases s@.len(),
    {
        proof {
            reveal_strlit(".db");
        }
        match text::strip_suffix(s.as_str(), ".db") {
            Some(t) => {
                s = t;
            },
            None => {
                break;
            },
        }
    }
    s
}

/// The key of a table in a database.
pub fn key_of(db: &str, table: &str) -> (r: String)
    ensures
        r@ == table_key(db@, table@),
{
    let mut s = db.to_owned();
    s.append("::");
    s.append(table);
    s
}

// ---------------------------------------------------------------------
// Chats
// ---------------------------------------------------------------------

/// The row of the name list that a table's name points to.
pub open spec fn row_id_of(table: Seq<char>) -> Option<i64> {
    match text::after_prefix(table, "ChatMsg_"@) {
        Some(rest) => match number::read_signed(rest, i64::MIN as int, i64::MAX as int) {
            Some(n) => Some(n as i64),
            None => None,
        },
        None => None,
    }
}

/// The hash of the chat's name that a table's name carries.
pub open spec fn hash_of(table: Seq<char>) -> Option<Seq<char>> {
    match text::after_prefix(table, "Msg_"@) {
        Some(h) => Some(h),
        None => match text::after_prefix(table, "MSG_"@) {
            Some(h) => Some(h),
            None => text::after_prefix(table, "Chat_"@),
        },
    }
}

/// The hash of a chat's name: its MD5 digest in hexadecimal digits.
pub open spec fn name_hash(name: Seq<char>) -> Seq<char> {
    number::hex_text(outside::md5_digest(encode_utf8(name)))
}

/// Names by their hashes, added to those known already.
pub open spec fn by_hash(
    known: Map<Seq<char>, Seq<char>>,
    names: Seq<Seq<char>>,
) -> Map<Seq<char>, Seq<char>>
    decreases names.len(),
{
    if names.len() == 0 {
        known
    } else {
        by_hash(known, names.drop_last()).insert(name_hash(names.last()), names.last())
    }
}

/// The name that a hash stands for, or the table's own name.
pub open spec fn named(
    table: Seq<char>,
    hash: Seq<char>,
    names: Map<Seq<char>, Seq<char>>,
) -> Seq<char> {
    if names.dom().contains(hash) {
        names[hash]
    } else {
        table
    }
}

/// The row of the name list that a table's name points to.
pub fn table_row_id(table: &str) -> (r: Option<i64>)
    ensures
        r == row_id_of(table@),
{
    match text::strip_prefix(table, "ChatMsg_") {
        Some(rest) => number::parse_i64(rest.as_str()),
        None => None,
    }
}

/// The hash of the chat's name that a table's name carries.
pub fn table_hash(table: &str) -> (r: Option<String>)
    ensures
        text::opt_view(r) == hash_of(table@),
{
    match text::strip_prefix(table, "Msg_") {
        Some(h) => Some(h),
        None => match text::strip_prefix(table, "MSG_") {
            Some(h) => Some(h),
            None => text::strip_prefix(table, "Chat_"),
        },
    }
}

/// The hash of a chat's name.
pub fn hash_name(name: &str) -> (r: String)
    ensures
        r@ == name_hash(name@),
{
    let digest = outside::md5_bytes(name.as_bytes());
    number::hex_string(&digest)
}

/// Adds names by their hashes to those known already.
pub fn index_names(known: &mut Table<String>, names: &Vec<String>)
    requires
        old(known).wf(),
    ensures
        final(known).wf(),
        final(known)@ == by_hash(old(known)@, text::views(names@)),
{
    let mut i: usize = 0;
    let ghost all = text::views(names@);
    let ghost first = known@;
    assert(all.take(0).len() == 0);
    while i < names.len()
        invariant
            0 <= i <= names@.len(),
            all == text::views(names@),
            known.wf(),
            known@ == by_hash(first, all.take(i as int)),
        decreases names@.len() - i,
    {
        assert(all.take(i + 1).drop_last() =~= all.take(i as int));
        known.insert(hash_name(names[i].as_str()), names[i].clone());
        i += 1;
    }
    assert(all.take(all.len() as int) =~= all);
}

/// The name that a hash stands for, or the table's own name.
pub fn name_or_table(table: &str, hash: &str, names: &Table<String>) -> (r: String)
    requires
        names.wf(),
    ensures
        r@ == named(table@, hash@, names@),
{
    match names.get(hash) {
        Some(name) => name.clone(),
        None => table.to_owned(),
    }
}

// ---------------------------------------------------------------------
// Laws on tables
// ---------------------------------------------------------------------

/// The first column that goes by one of some names is the one picked, whatever
/// follows it; where none does there is none.
pub proof fn law_first_column_is_picked(
    before: Seq<Seq<char>>,
    column: Seq<char>,
    after: Seq<Seq<char>>,
    names: Seq<Seq<char>>,
    other: Seq<char>,
)
    requires
        forall|i: int| 0 <= i < before.len() ==> !goes_by(#[trigger] before[i], names),
    ensures
        goes_by(column, names) ==> pick(before + seq![column] + after, names) == Some(column),
        goes_by(column, names) ==> pick_or(before + seq![column] + after, names, other) == column,
        pick(before, names) is None,
        pick_or(before, names, other) == other,
    decreases before.len(),
{
    let all = before + seq![column] + after;
    if before.len() > 0 {
        let rest = before.skip(1);
        assert forall|i: int| 0 <= i < rest.len() implies !goes_by(#[trigger] rest[i], names) by {
            assert(rest[i] == before[i + 1]);
        }
        law_first_column_is_picked(rest, column, after, names, other);
        assert(all[0] == before[0]);
        assert(all.skip(1) =~= rest + seq![column] + after);
        assert(!goes_by(before[0], names));
    } else {
        assert(all[0] == column);
    }
}

/// Each column goes by its names in large or small letters, and by no other.
pub proof fn law_columns_go_by_their_names(column: Seq<char>)
    ensures
        goes_by(column, id_names()) <==> text::same_but_case(column, "local_id"@)
            || text::same_but_case(column, "localId"@) || text::same_but_case(column, "rowid"@),
        goes_by(column, time_names()) <==> text::same_but_case(column, "create_time"@)
            || text::same_but_case(column, "createTime"@),
        goes_by(column, content_names()) <==> text::same_but_case(column, "message_content"@)
            || text::same_but_case(column, "content"@) || text::same_but_case(
            column,
            "msgContent"@,
        ) || text::same_but_case(column, "compress_content"@),
        goes_by(column, type_names()) <==> text::same_but_case(column, "local_type"@)
            || text::same_but_case(column, "type"@) || text::same_but_case(column, "msgType"@),
        goes_by(column, talker_names()) <==> text::same_but_case(column, "real_sender_id"@)
            || text::same_but_case(column, "talker"@) || text::same_but_case(column, "talkerId"@),
        goes_by(column, server_names()) <==> text::same_but_case(column, "server_id"@)
            || text::same_but_case(column, "svrid"@) || text::same_but_case(column, "msgSvrId"@),
{
    let a = id_names();
    assert(a[0] == "local_id"@ && a[1] == "localId"@ && a[2] == "rowid"@);
    let b = time_names();
    assert(b[0] == "create_time"@ && b[1] == "createTime"@);
    let c = content_names();
    assert(c[0] == "message_content"@ && c[1] == "content"@ && c[2] == "msgContent"@ && c[3]
        == "compress_content"@);
    let d = type_names();
    assert(d[0] == "local_type"@ && d[1] == "type"@ && d[2] == "msgType"@);
    let e = talker_names();
    assert(e[0] == "real_sender_id"@ && e[1] == "talker"@ && e[2] == "talkerId"@);
    let f = server_names();
    assert(f[0] == "server_id"@ && f[1] == "svrid"@ && f[2] == "msgSvrId"@);
}

/// A table is read exactly where it has a column for the content. Of every row
/// eight things are asked for in a fixed order, a constant standing for each
/// that the table lacks; rows above the mark, by ascending id.
pub proof fn law_eight_things_are_asked_for(table: Seq<char>, columns: Seq<Seq<char>>)
    ensures
        meta_of(table, columns) is Some <==> pick(columns, content_names()) is Some,
        meta_of(table, columns) matches Some(m) ==> {
            let id = pick_or(columns, id_names(), "rowid"@);
            let asked = seq![
                id,
                pick_or(columns, server_names(), "0"@),
                pick_or(columns, time_names(), "0"@),
                pick(columns, content_names())->0,
                pick_or(columns, type_names(), "0"@),
                pick_or(columns, talker_names(), "''"@),
                pick_or(columns, seq!["status"@], "0"@),
                pick_or(columns, seq!["source"@], "''"@),
            ];
            &&& m.table == table
            &&& m.id_col == id
            &&& m.select_sql == "SELECT "@ + text::join(asked, ", "@) + " FROM ["@ + table
                + "] WHERE "@ + id + " > ?1 ORDER BY "@ + id + " ASC"@
        },
{
    if let Some(m) = meta_of(table, columns) {
        let id = pick_or(columns, id_names(), "rowid"@);
        let a = seq![
            id,
            pick_or(columns, server_names(), "0"@),
            pick_or(columns, time_names(), "0"@),
            pick(columns, content_names())->0,
            pick_or(columns, type_names(), "0"@),
            pick_or(columns, talker_names(), "''"@),
            pick_or(columns, seq!["status"@], "0"@),
            pick_or(columns, seq!["source"@], "''"@),
        ];
        let c = ", "@;
        let p = "SELECT "@;
        assert(a.take(8) =~= a);
        lemma_join_grows(p, a, c, 1);
        lemma_join_grows(p, a, c, 2);
        lemma_join_grows(p, a, c, 3);
        lemma_join_grows(p, a, c, 4);
        lemma_join_grows(p, a, c, 5);
        lemma_join_grows(p, a, c, 6);
        lemma_join_grows(p, a, c, 7);
    }
}

proof fn lemma_join_grows(p: Seq<char>, a: Seq<Seq<char>>, c: Seq<char>, k: int)
    requires
        1 <= k < a.len(),
    ensures
        text::join(a.take(1), c) == a[0],
        p + text::join(a.take(k + 1), c) == p + text::join(a.take(k), c) + c + a[k],
{
    assert(a.take(k + 1).drop_last() =~= a.take(k));
    assert(a.take(k + 1).last() == a[k]);
    let j = text::join(a.take(k), c);
    assert(p + (j + c + a[k]) =~= p + j + c + a[k]);
}

/// A database goes by its file's name, without its directory and its ending.
pub proof fn law_database_goes_by_its_number(name: Seq<char>)
    requires
        !text::begins(name, "message/"@),
        !text::ends(name, ".db"@),
        !text::begins(name + ".db"@, "message/"@),
    ensures
        db_prefix("message/"@ + name + ".db"@) == name,
        db_prefix(name + ".db"@) == name,
        db_prefix(name) == name,
{
    reveal_strlit("message/");
    reveal_strlit(".db");
    let file = name + ".db"@;
    text::law_prefix_comes_off("message/"@, file);
    text::law_prefix_comes_off(".db"@, name);
    assert("message/"@ + name + ".db"@ =~= "message/"@ + file);
    reveal_with_fuel(strip_all_prefix, 2);
    reveal_with_fuel(strip_all_suffix, 2);
}

/// Two tables of one name in different databases, or of different names in one
/// database, have different keys.
pub proof fn law_tables_have_own_keys(
    db: Seq<char>,
    other_db: Seq<char>,
    table: Seq<char>,
    other: Seq<char>,
)
    ensures
        table_key(db, table) == table_key(db, other) ==> table == other,
        table_key(db, table) == table_key(other_db, table) ==> db == other_db,
        text::begins(table_key(db, table), db),
        text::ends(table_key(db, table), table),
{
    let a = table_key(db, table);
    let head = db + "::"@;
    assert(a =~= head + table);
    assert(table_key(db, other) =~= head + other);
    assert(a =~= db + ("::"@ + table));
    assert(table_key(other_db, table) =~= other_db + ("::"@ + table));
    if a == table_key(db, other) {
        assert(table =~= a.skip(head.len() as int));
        assert(other =~= table_key(db, other).skip(head.len() as int));
    }
    if a == table_key(other_db, table) {
        let n = a.len() - ("::"@ + table).len();
        assert(db =~= a.take(n));
        assert(other_db =~= table_key(other_db, table).take(n));
    }
    text::law_occurs_is_in_between(Seq::empty(), db, "::"@ + table);
    text::law_occurs_is_in_between(head, table, Seq::empty());
}

/// A table numbered by a chat gives back the number, and one named by a hash
/// gives back the hash, whichever of the three names it has.
pub proof fn law_tables_name_their_chats(n: i64, hash: Seq<char>, table: Seq<char>)
    ensures
        row_id_of("ChatMsg_"@ + number::int_dec(n as int)) == Some(n),
        !text::begins(table, "ChatMsg_"@) ==> row_id_of(table) is None,
        hash_of("Msg_"@ + hash) == Some(hash),
        hash_of("MSG_"@ + hash) == Some(hash),
        hash_of("Chat_"@ + hash) == Some(hash),
        hash_of(table) is Some <==> text::begins(table, "Msg_"@) || text::begins(table, "MSG_"@)
            || text::begins(table, "Chat_"@),
{
    number::law_number_reads_back(n as int, i64::MIN as int, i64::MAX as int);
    text::law_prefix_comes_off("ChatMsg_"@, number::int_dec(n as int));
    text::law_prefix_comes_off("Msg_"@, hash);
    text::law_prefix_comes_off("MSG_"@, hash);
    text::law_prefix_comes_off("Chat_"@, hash);
    reveal_strlit("Msg_");
    reveal_strlit("MSG_");
    reveal_strlit("Chat_");
    let b = "MSG_"@ + hash;
    let c = "Chat_"@ + hash;
    assert(b[1] == 'S' && c[0] == 'C');
    if text::begins(b, "Msg_"@) {
        assert(b.subrange(0, 4)[1] == 's');
    }
    if text::begins(c, "Msg_"@) {
        assert(c.subrange(0, 4)[0] == 'M');
    }
    if text::begins(c, "MSG_"@) {
        assert(c.subrange(0, 4)[0] == 'M');
    }
}

/// Every listed name is found under its hash, the last of several with one hash;
/// what was known under another hash stays.
pub proof fn law_names_are_found_by_hash(
    known: Map<Seq<char>, Seq<char>>,
    before: Seq<Seq<char>>,
    name: Seq<char>,
    after: Seq<Seq<char>>,
    table: Seq<char>,
    hash: Seq<char>,
)
    requires
        forall|i: int| 0 <= i < after.len() ==> name_hash(#[trigger] after[i]) != name_hash(name),
        forall|i: int| 0 <= i < before.len() ==> name_hash(#[trigger] before[i]) != hash,
    ensures
        named(table, name_hash(name), by_hash(known, before + seq![name] + after)) == name,
        named(table, hash, by_hash(known, before)) == named(table, hash, known),
        named(table, hash, known.remove(hash)) == table,
{
    lemma_hash_known(known, before, name, after);
    lemma_hash_kept(known, before, hash);
}

proof fn lemma_hash_known(
    known: Map<Seq<char>, Seq<char>>,
    before: Seq<Seq<char>>,
    name: Seq<char>,
    after: Seq<Seq<char>>,
)
    requires
        forall|i: int| 0 <= i < after.len() ==> name_hash(#[trigger] after[i]) != name_hash(name),
    ensures
        by_hash(known, before + seq![name] + after).dom().contains(name_hash(name)),
        by_hash(known, before + seq![name] + after)[name_hash(name)] == name,
    decreases after.len(),
{
    let all = before + seq![name] + after;
    if after.len() == 0 {
        assert(all.last() == name);
    } else {
        let rest = after.drop_last();
        assert forall|i: int| 0 <= i < rest.len() implies name_hash(#[trigger] rest[i])
            != name_hash(name) by {
            assert(rest[i] == after[i]);
        }
        lemma_hash_known(known, before, name, rest);
        assert(all.last() == after[after.len() - 1]);
        assert(all.drop_last() =~= before + seq![name] + rest);
    }
}

proof fn lemma_hash_kept(known: Map<Seq<char>, Seq<char>>, names: Seq<Seq<char>>, hash: Seq<char>)
    requires
        forall|i: int| 0 <= i < names.len() ==> name_hash(#[trigger] names[i]) != hash,
    ensures
        by_hash(known, names).dom().contains(hash) == known.dom().contains(hash),
        by_hash(known, names).dom().contains(hash) ==> by_hash(known, names)[hash] == known[hash],
    decreases names.len(),
{
    if names.len() > 0 {
        let rest = names.drop_last();
        assert forall|i: int| 0 <= i < rest.len() implies name_hash(#[trigger] rest[i]) != hash by {
            assert(rest[i] == names[i]);
        }
        lemma_hash_kept(known, rest, hash);
        assert(name_hash(names[names.len() - 1]) != hash);
    }
}

} // verus!
