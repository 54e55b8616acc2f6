//! Fetching what is new in the message databases.
//!
//! A poll asks one question at a time. Whoever runs it puts the question to the
//! database and hands the answer back; the poll decides what to ask next and
//! what the answers add up to.
use vstd::prelude::*;
use crate::cell;
use crate::cell::{Cell, CellView};
use crate::messages;
use crate::messages::{MsgRow, MsgRowView, RawMsg, RawView};
use crate::number;
use crate::schema;
use crate::schema::{MetaView, TableMeta};
use crate::table::Table;
use crate::text;

verus! {

// ---------------------------------------------------------------------
// What a poll finds
// ---------------------------------------------------------------------

/// What some databases answer.
pub struct World {
    /// The names of the message tables of a database.
    pub tables: spec_fn(Seq<char>) -> Seq<CellView>,
    /// The column names of a table, unless the query fails.
    pub columns: spec_fn(Seq<char>, Seq<char>) -> Option<Seq<CellView>>,
    /// The rows that a query gives behind an id, unless it fails.
    pub rows: spec_fn(Seq<char>, Seq<char>, i64) -> Option<Seq<MsgRowView>>,
    /// The name in a row of the name list, unless there is none.
    pub name_at: spec_fn(Seq<char>, i64) -> Option<CellView>,
    /// All names of the name list.
    pub names: spec_fn(Seq<char>) -> Seq<CellView>,
    /// The greatest id that a query gives, unless it fails.
    pub greatest: spec_fn(Seq<char>, Seq<char>) -> Option<CellView>,
}

/// What a poll has found and learned so far.
pub struct Found {
    /// The new messages.
    pub msgs: Seq<RawView>,
    /// The greatest id seen, by the key of the table.
    pub marks: Map<Seq<char>, i64>,
    /// How tables are read, by the key of the table.
    pub metas: Map<Seq<char>, MetaView>,
    /// Chat names by their hashes.
    pub names: Map<Seq<char>, Seq<char>>,
}

/// The greatest id seen in a table.
pub open spec fn mark_of(marks: Map<Seq<char>, i64>, key: Seq<char>) -> i64 {
    if marks.dom().contains(key) {
        marks[key]
    } else {
        0
    }
}

/// The key under which the greatest id of a table stands.
pub open spec fn mark_key(db: Seq<char>, table: Seq<char>) -> Seq<char> {
    schema::table_key(schema::db_prefix(db), table)
}

/// What is learned of a table whose columns are not known yet.
pub open spec fn learned(w: World, db: Seq<char>, table: Seq<char>) -> Option<MetaView> {
    match (w.columns)(db, table) {
        Some(cells) => schema::meta_of(table, cell::texts(cells)),
        None => None,
    }
}

/// How some tables are read, from what is known already or from their columns;
/// tables that cannot be read are left out.
pub open spec fn gather(
    w: World,
    db: Seq<char>,
    tables: Seq<Seq<char>>,
    at: int,
    known: Seq<MetaView>,
    metas: Map<Seq<char>, MetaView>,
) -> (Seq<MetaView>, Map<Seq<char>, MetaView>)
    decreases tables.len() - at,
{
    if at >= tables.len() {
        (known, metas)
    } else {
        let key = schema::table_key(db, tables[at]);
        if metas.dom().contains(key) {
            gather(w, db, tables, at + 1, known.push(metas[key]), metas)
        } else {
            match learned(w, db, tables[at]) {
                Some(m) => gather(w, db, tables, at + 1, known.push(m), metas.insert(key, m)),
                None => gather(w, db, tables, at + 1, known, metas),
            }
        }
    }
}

/// The chat of a table whose name carries no row of the name list, or one that
/// gave nothing; and the chat names known then. Where the hash is not among
/// them, those of this database are added first.
pub open spec fn chat_by_hash(
    w: World,
    db: Seq<char>,
    table: Seq<char>,
    names: Map<Seq<char>, Seq<char>>,
) -> (Seq<char>, Map<Seq<char>, Seq<char>>) {
    match schema::hash_of(table) {
        Some(hash) => {
            let all = if names.dom().contains(hash) {
                names
            } else {
                schema::by_hash(names, cell::texts((w.names)(db)))
            };
            (schema::named(table, hash, all), all)
        },
        None => (table, names),
    }
}

/// The name in a row of the name list, where it is a text.
pub open spec fn name_in_row(w: World, db: Seq<char>, row: i64) -> Option<Seq<char>> {
    match (w.name_at)(db, row) {
        Some(c) => cell::text_of(c),
        None => None,
    }
}

/// The chat of a table, and the chat names known then.
pub open spec fn chat_of(
    w: World,
    db: Seq<char>,
    table: Seq<char>,
    names: Map<Seq<char>, Seq<char>>,
) -> (Seq<char>, Map<Seq<char>, Seq<char>>) {
    match schema::row_id_of(table) {
        Some(row) => match name_in_row(w, db, row) {
            Some(name) => (name, names),
            None => chat_by_hash(w, db, table, names),
        },
        None => chat_by_hash(w, db, table, names),
    }
}

/// The messages of one table added under their chat.
pub open spec fn delivered(
    f: Found,
    key: Seq<char>,
    msgs: Seq<RawView>,
    chat: (Seq<char>, Map<Seq<char>, Seq<char>>),
) -> Found {
    Found {
        msgs: f.msgs + messages::all_placed(msgs, chat.0, key),
        marks: f.marks.insert(key, messages::max_id(mark_of(f.marks, key), msgs)),
        metas: f.metas,
        names: chat.1,
    }
}

/// What one table adds.
pub open spec fn from_table(w: World, db: Seq<char>, f: Found, meta: MetaView) -> Found {
    let key = mark_key(db, meta.table);
    match (w.rows)(db, meta.select_sql, mark_of(f.marks, key)) {
        Some(rows) => {
            let msgs = messages::raws_of(rows);
            if msgs.len() > 0 {
                delivered(f, key, msgs, chat_of(w, db, meta.table, f.names))
            } else {
                f
            }
        },
        None => f,
    }
}

/// What the tables from a place on add.
pub open spec fn from_tables(
    w: World,
    db: Seq<char>,
    f: Found,
    known: Seq<MetaView>,
    at: int,
) -> Found
    decreases known.len() - at,
{
    if at >= known.len() {
        f
    } else {
        from_tables(w, db, from_table(w, db, f, known[at]), known, at + 1)
    }
}

/// What the tables of a database add, where some of them are known already.
pub open spec fn from_listed(
    w: World,
    db: Seq<char>,
    f: Found,
    tables: Seq<Seq<char>>,
    at: int,
    known: Seq<MetaView>,
) -> Found {
    let g = gather(w, db, tables, at, known, f.metas);
    from_tables(w, db, Found { metas: g.1, ..f }, g.0, 0)
}

/// What one database adds.
pub open spec fn from_db(w: World, db: Seq<char>, f: Found) -> Found {
    from_listed(w, db, f, cell::texts((w.tables)(db)), 0, Seq::empty())
}

/// What the databases from a place on add.
pub open spec fn from_dbs(w: World, dbs: Seq<Seq<char>>, at: int, f: Found) -> Found
    decreases dbs.len() - at,
{
    if at >= dbs.len() {
        f
    } else {
        from_dbs(w, dbs, at + 1, from_db(w, dbs[at], f))
    }
}

// ---------------------------------------------------------------------
// Laws
// ---------------------------------------------------------------------

/// Whether a database gives only rows behind the id that it was asked for.
pub open spec fn honest(w: World) -> bool {
    forall|db: Seq<char>, sql: Seq<char>, after: i64, i: int|
        #![trigger messages::raws_of((w.rows)(db, sql, after)->0)[i]]
        (w.rows)(db, sql, after) is Some && 0 <= i < messages::raws_of(
            (w.rows)(db, sql, after)->0,
        ).len() ==> messages::raws_of((w.rows)(db, sql, after)->0)[i].local_id > after
}

/// Whether what was found later only adds to what was found earlier: every
/// message and mark is kept or raised, and each new message lies between the
/// mark that its table had and the one it has.
pub open spec fn extends(a: Found, b: Found, w: World) -> bool {
    &&& b.msgs.len() >= a.msgs.len()
    &&& b.msgs.take(a.msgs.len() as int) =~= a.msgs
    &&& forall|k: Seq<char>| #[trigger]
        a.marks.dom().contains(k) ==> b.marks.dom().contains(k) && b.marks[k] >= a.marks[k]
    &&& forall|i: int|
        a.msgs.len() <= i < b.msgs.len() ==> b.marks.dom().contains(
            (#[trigger] b.msgs[i]).table_key,
        ) && b.msgs[i].local_id <= b.marks[b.msgs[i].table_key]
    &&& honest(w) ==> forall|i: int|
        a.msgs.len() <= i < b.msgs.len() && a.marks.dom().contains(
            (#[trigger] b.msgs[i]).table_key,
        ) ==> b.msgs[i].local_id > a.marks[b.msgs[i].table_key]
}

proof fn lemma_extends_trans(a: Found, b: Found, c: Found, w: World)
    requires
        extends(a, b, w),
        extends(b, c, w),
    ensures
        extends(a, c, w),
{
    assert(c.msgs.take(a.msgs.len() as int) =~= a.msgs) by {
        assert(c.msgs.take(b.msgs.len() as int).take(a.msgs.len() as int) =~= c.msgs.take(
            a.msgs.len() as int,
        ));
    }
    assert forall|k: Seq<char>| #[trigger] a.marks.dom().contains(k) implies c.marks.dom().contains(
        k,
    ) && c.marks[k] >= a.marks[k] by {
        assert(b.marks.dom().contains(k));
    }
    assert forall|i: int| a.msgs.len() <= i < c.msgs.len() implies c.marks.dom().contains(
        (#[trigger] c.msgs[i]).table_key,
    ) && c.msgs[i].local_id <= c.marks[c.msgs[i].table_key] by {
        if i < b.msgs.len() {
            assert(c.msgs.take(b.msgs.len() as int)[i] == c.msgs[i]);
            assert(b.msgs[i] == c.msgs[i]);
            assert(c.marks.dom().contains(b.msgs[i].table_key));
        }
    }
    if honest(w) {
        assert forall|i: int|
            a.msgs.len() <= i < c.msgs.len() && a.marks.dom().contains(
                (#[trigger] c.msgs[i]).table_key,
            ) implies c.msgs[i].local_id > a.marks[c.msgs[i].table_key] by {
            if i < b.msgs.len() {
                assert(c.msgs.take(b.msgs.len() as int)[i] == c.msgs[i]);
                assert(b.msgs[i] == c.msgs[i]);
            } else {
                assert(b.marks.dom().contains(c.msgs[i].table_key));
            }
        }
    }
}

proof fn lemma_table_extends(w: World, db: Seq<char>, f: Found, meta: MetaView)
    ensures
        extends(f, from_table(w, db, f, meta), w),
{
    let key = mark_key(db, meta.table);
    let g = from_table(w, db, f, meta);
    let after = mark_of(f.marks, key);
    assert(f.msgs.take(f.msgs.len() as int) =~= f.msgs);
    match (w.rows)(db, meta.select_sql, after) {
        Some(rows) => {
            let msgs = messages::raws_of(rows);
            messages::lemma_max_id(after, msgs);
            if msgs.len() > 0 {
                let n = f.msgs.len();
                assert(g.msgs.take(n as int) =~= f.msgs);
                assert forall|i: int| n <= i < g.msgs.len() implies g.marks.dom().contains(
                    (#[trigger] g.msgs[i]).table_key,
                ) && g.msgs[i].local_id <= g.marks[g.msgs[i].table_key] by {
                    assert(g.msgs[i].local_id == msgs[i - n].local_id);
                }
                if honest(w) {
                    assert forall|i: int|
                        n <= i < g.msgs.len() && f.marks.dom().contains(
                            (#[trigger] g.msgs[i]).table_key,
                        ) implies g.msgs[i].local_id > f.marks[g.msgs[i].table_key] by {
                        assert(messages::raws_of(
                            (w.rows)(db, meta.select_sql, after)->0,
                        )[i - n].local_id > after);
                    }
                }
            }
        },
        None => {},
    }
}

pub proof fn lemma_tables_extend(w: World, db: Seq<char>, f: Found, known: Seq<MetaView>, at: int)
    ensures
        extends(f, from_tables(w, db, f, known, at), w),
    decreases known.len() - at,
{
    if at >= known.len() {
        assert(f.msgs.take(f.msgs.len() as int) =~= f.msgs);
    } else {
        let g = from_table(w, db, f, known[at]);
        lemma_table_extends(w, db, f, known[at]);
        lemma_tables_extend(w, db, g, known, at + 1);
        lemma_extends_trans(f, g, from_tables(w, db, g, known, at + 1), w);
    }
}

/// Whatever the databases answer, a poll keeps every mark or raises it, and
/// each message it adds lies at or below the new mark of its table; where the
/// databases give only rows behind the id they were asked for, it also lies
/// above the old mark.
pub proof fn law_marks_rise(w: World, dbs: Seq<Seq<char>>, at: int, f: Found)
    ensures
        extends(f, from_dbs(w, dbs, at, f), w),
    decreases dbs.len() - at,
{
    if at >= dbs.len() {
        assert(f.msgs.take(f.msgs.len() as int) =~= f.msgs);
    } else {
        let db = dbs[at];
        let g = gather(w, db, cell::texts((w.tables)(db)), 0, Seq::empty(), f.metas);
        let start = Found { metas: g.1, ..f };
        lemma_tables_extend(w, db, start, g.0, 0);
        let next = from_db(w, db, f);
        assert(extends(f, next, w)) by {
            assert(extends(start, next, w));
        }
        law_marks_rise(w, dbs, at + 1, next);
        lemma_extends_trans(f, next, from_dbs(w, dbs, at + 1, next), w);
    }
}

/// Whether a message was added to a table.
pub open spec fn added(a: Found, b: Found, key: Seq<char>, i: int) -> bool {
    a.msgs.len() <= i < b.msgs.len() && b.msgs[i].table_key == key
}

/// Whether the mark of a table is the greatest of its old mark and the ids
/// added to it, and what it was where none was added.
pub open spec fn mark_follows(a: Found, b: Found, key: Seq<char>) -> bool {
    if exists|i: int| #[trigger] added(a, b, key, i) {
        &&& b.marks.dom().contains(key)
        &&& b.marks[key] >= mark_of(a.marks, key)
        &&& forall|i: int| #[trigger]
            added(a, b, key, i) ==> b.marks[key] >= b.msgs[i].local_id
        &&& b.marks[key] == mark_of(a.marks, key) || exists|i: int| #[trigger]
            added(a, b, key, i) && b.msgs[i].local_id == b.marks[key]
    } else {
        &&& b.marks.dom().contains(key) == a.marks.dom().contains(key)
        &&& a.marks.dom().contains(key) ==> b.marks[key] == a.marks[key]
    }
}

proof fn lemma_follows_trans(a: Found, b: Found, c: Found, w: World, key: Seq<char>)
    requires
        extends(a, b, w),
        extends(b, c, w),
        mark_follows(a, b, key),
        mark_follows(b, c, key),
    ensures
        mark_follows(a, c, key),
{
    assert forall|i: int| a.msgs.len() <= i < b.msgs.len() implies c.msgs[i]
        == #[trigger] b.msgs[i] by {
        assert(c.msgs.take(b.msgs.len() as int)[i] == c.msgs[i]);
    }
    assert forall|i: int| #[trigger] added(a, c, key, i) implies added(a, b, key, i) || added(
        b,
        c,
        key,
        i,
    ) by {
        if i < b.msgs.len() {
            assert(c.msgs[i] == b.msgs[i]);
        }
    }
    assert forall|i: int| #[trigger] added(a, b, key, i) implies added(a, c, key, i)
        && c.msgs[i] == b.msgs[i] by {
        assert(c.msgs[i] == b.msgs[i]);
    }
    assert forall|i: int| #[trigger] added(b, c, key, i) implies added(a, c, key, i) by {}
    if exists|i: int| #[trigger] added(a, c, key, i) {
        if exists|i: int| #[trigger] added(b, c, key, i) {
            if c.marks[key] != mark_of(b.marks, key) {
                let i = choose|i: int| #[trigger]
                    added(b, c, key, i) && c.msgs[i].local_id == c.marks[key];
                assert(added(a, c, key, i));
            } else if mark_of(b.marks, key) != mark_of(a.marks, key) {
                let i = choose|i: int| #[trigger]
                    added(a, b, key, i) && b.msgs[i].local_id == b.marks[key];
                assert(added(a, c, key, i));
            }
        } else {
            let k = choose|i: int| #[trigger] added(a, c, key, i);
            assert(added(a, b, key, k));
            if c.marks[key] != mark_of(a.marks, key) {
                let i = choose|i: int| #[trigger]
                    added(a, b, key, i) && b.msgs[i].local_id == b.marks[key];
                assert(added(a, c, key, i));
            }
        }
    }
}

proof fn lemma_table_follows(w: World, db: Seq<char>, f: Found, meta: MetaView, key: Seq<char>)
    ensures
        mark_follows(f, from_table(w, db, f, meta), key),
{
    let own = mark_key(db, meta.table);
    let g = from_table(w, db, f, meta);
    let n = f.msgs.len();
    match (w.rows)(db, meta.select_sql, mark_of(f.marks, own)) {
        Some(rows) => {
            let msgs = messages::raws_of(rows);
            if msgs.len() > 0 {
                let start = mark_of(f.marks, own);
                messages::lemma_max_id(start, msgs);
                assert forall|i: int| n <= i < g.msgs.len() implies (#[trigger] g.msgs[i]).table_key
                    == own && g.msgs[i].local_id == msgs[i - n].local_id by {}
                if key == own {
                    assert(added(f, g, key, n as int));
                    if messages::max_id(start, msgs) != start {
                        let i = choose|i: int|
                            0 <= i < msgs.len() && (#[trigger] msgs[i]).local_id
                                == messages::max_id(start, msgs);
                        assert(g.msgs[n + i].local_id == msgs[i].local_id);
                        assert(added(f, g, key, n + i));
                    }
                }
            }
        },
        None => {},
    }
}

proof fn lemma_tables_follow(
    w: World,
    db: Seq<char>,
    f: Found,
    known: Seq<MetaView>,
    at: int,
    key: Seq<char>,
)
    ensures
        mark_follows(f, from_tables(w, db, f, known, at), key),
    decreases known.len() - at,
{
    if at < known.len() {
        let g = from_table(w, db, f, known[at]);
        lemma_table_extends(w, db, f, known[at]);
        lemma_table_follows(w, db, f, known[at], key);
        lemma_tables_extend(w, db, g, known, at + 1);
        lemma_tables_follow(w, db, g, known, at + 1, key);
        lemma_follows_trans(f, g, from_tables(w, db, g, known, at + 1), w, key);
    }
}

/// Over a whole poll the mark of each table becomes the greatest of what it was
/// and the ids of the messages found in it, no mark counting as zero; a table
/// in which none was found keeps its mark, or has none as before.
pub proof fn law_marks_are_maxima(
    w: World,
    dbs: Seq<Seq<char>>,
    at: int,
    f: Found,
    key: Seq<char>,
)
    ensures
        mark_follows(f, from_dbs(w, dbs, at, f), key),
    decreases dbs.len() - at,
{
    if at < dbs.len() {
        let db = dbs[at];
        let g = gather(w, db, cell::texts((w.tables)(db)), 0, Seq::empty(), f.metas);
        let start = Found { metas: g.1, ..f };
        let next = from_db(w, db, f);
        lemma_tables_extend(w, db, start, g.0, 0);
        lemma_tables_follow(w, db, start, g.0, 0, key);
        assert(extends(f, next, w)) by {
            assert(extends(start, next, w));
        }
        assert forall|i: int| #[trigger] added(start, next, key, i) implies added(
            f,
            next,
            key,
            i,
        ) by {}
        assert forall|i: int| #[trigger] added(f, next, key, i) implies added(
            start,
            next,
            key,
            i,
        ) by {}
        assert(mark_follows(f, next, key));
        law_marks_rise(w, dbs, at + 1, next);
        law_marks_are_maxima(w, dbs, at + 1, next, key);
        lemma_follows_trans(f, next, from_dbs(w, dbs, at + 1, next), w, key);
    }
}

/// A poll that finds nothing leaves all marks as they are.
pub proof fn law_nothing_found_nothing_marked(w: World, dbs: Seq<Seq<char>>, at: int, f: Found)
    requires
        from_dbs(w, dbs, at, f).msgs.len() == f.msgs.len(),
    ensures
        from_dbs(w, dbs, at, f).marks == f.marks,
{
    let g = from_dbs(w, dbs, at, f);
    assert forall|key: Seq<char>|
        (#[trigger] g.marks.dom().contains(key)) == f.marks.dom().contains(key) && (
        f.marks.dom().contains(key) ==> g.marks[key] == f.marks[key]) by {
        law_marks_are_maxima(w, dbs, at, f, key);
    }
    assert(g.marks =~= f.marks);
}

/// No message is delivered twice: where the databases of a second poll give
/// only rows behind the id they were asked for, whatever it adds to a table
/// has a greater id than everything the first poll added to that table.
pub proof fn law_no_message_twice(
    w1: World,
    dbs1: Seq<Seq<char>>,
    f: Found,
    w2: World,
    dbs2: Seq<Seq<char>>,
    metas: Map<Seq<char>, MetaView>,
    i: int,
    j: int,
)
    requires
        honest(w2),
        f.msgs.len() == 0,
        0 <= i < from_dbs(w1, dbs1, 0, f).msgs.len(),
        ({
            let start = Found {
                msgs: Seq::empty(),
                marks: from_dbs(w1, dbs1, 0, f).marks,
                metas,
                names: Map::empty(),
            };
            &&& 0 <= j < from_dbs(w2, dbs2, 0, start).msgs.len()
            &&& from_dbs(w1, dbs1, 0, f).msgs[i].table_key == from_dbs(
                w2,
                dbs2,
                0,
                start,
            ).msgs[j].table_key
        }),
    ensures
        ({
            let start = Found {
                msgs: Seq::empty(),
                marks: from_dbs(w1, dbs1, 0, f).marks,
                metas,
                names: Map::empty(),
            };
            from_dbs(w1, dbs1, 0, f).msgs[i].local_id < from_dbs(w2, dbs2, 0, start).msgs[j].local_id
        }),
{
    let start = Found {
        msgs: Seq::empty(),
        marks: from_dbs(w1, dbs1, 0, f).marks,
        metas,
        names: Map::empty(),
    };
    law_marks_rise(w1, dbs1, 0, f);
    law_marks_rise(w2, dbs2, 0, start);
}

/// Whether each name stands under its own hash.
pub open spec fn names_fit(names: Map<Seq<char>, Seq<char>>) -> bool {
    forall|hash: Seq<char>| #[trigger]
        names.dom().contains(hash) ==> schema::name_hash(names[hash]) == hash
}

proof fn lemma_by_hash(
    known: Map<Seq<char>, Seq<char>>,
    names: Seq<Seq<char>>,
    name: Seq<char>,
)
    requires
        names_fit(known),
    ensures
        names_fit(schema::by_hash(known, names)),
        names.contains(name) ==> schema::by_hash(known, names).dom().contains(
            schema::name_hash(name),
        ),
    decreases names.len(),
{
    if names.len() > 0 {
        lemma_by_hash(known, names.drop_last(), name);
        if names.contains(name) && name != names.last() {
            let i = choose|i: int| 0 <= i < names.len() && names[i] == name;
            assert(names.drop_last()[i] == name);
        }
    }
}

proof fn lemma_chat_names_fit(
    w: World,
    db: Seq<char>,
    table: Seq<char>,
    names: Map<Seq<char>, Seq<char>>,
)
    requires
        names_fit(names),
    ensures
        names_fit(chat_of(w, db, table, names).1),
{
    lemma_by_hash(names, cell::texts((w.names)(db)), Seq::empty());
}

/// A table that carries the hash of a name is the chat of that name, for every
/// name in the name list of its database, whatever names were known before; no
/// other name must have the hash.
pub proof fn law_hash_names_the_chat(
    w: World,
    db: Seq<char>,
    name: Seq<char>,
    names: Map<Seq<char>, Seq<char>>,
)
    requires
        names_fit(names),
        cell::texts((w.names)(db)).contains(name),
        forall|other: Seq<char>| #[trigger]
            schema::name_hash(other) == schema::name_hash(name) ==> other == name,
    ensures
        chat_of(w, db, "Msg_"@ + schema::name_hash(name), names).0 == name,
{
    let hash = schema::name_hash(name);
    let table = "Msg_"@ + hash;
    reveal_strlit("Msg_");
    reveal_strlit("ChatMsg_");
    assert(table.subrange(0, 4) =~= "Msg_"@);
    assert(table.skip(4) =~= hash);
    if text::begins(table, "ChatMsg_"@) {
        assert(table.subrange(0, 8)[0] == 'C');
        assert(table[0] == 'M');
    }
    assert(schema::row_id_of(table) is None);
    assert(schema::hash_of(table) == Some(hash));
    let read = cell::texts((w.names)(db));
    lemma_by_hash(names, read, name);
    let all = if names.dom().contains(hash) {
        names
    } else {
        schema::by_hash(names, read)
    };
    assert(all.dom().contains(hash));
    assert(schema::name_hash(all[hash]) == hash);
}

proof fn lemma_tables_names_fit(
    w: World,
    db: Seq<char>,
    f: Found,
    known: Seq<MetaView>,
    at: int,
)
    requires
        names_fit(f.names),
    ensures
        names_fit(from_tables(w, db, f, known, at).names),
    decreases known.len() - at,
{
    if at < known.len() {
        lemma_chat_names_fit(w, db, known[at].table, f.names);
        lemma_tables_names_fit(w, db, from_table(w, db, f, known[at]), known, at + 1);
    }
}

/// Throughout a poll each name known stands under its own hash.
pub proof fn law_names_stay_fit(w: World, dbs: Seq<Seq<char>>, at: int, f: Found)
    requires
        names_fit(f.names),
    ensures
        names_fit(from_dbs(w, dbs, at, f).names),
    decreases dbs.len() - at,
{
    if at < dbs.len() {
        let db = dbs[at];
        let g = gather(w, db, cell::texts((w.tables)(db)), 0, Seq::empty(), f.metas);
        lemma_tables_names_fit(w, db, Found { metas: g.1, ..f }, g.0, 0);
        law_names_stay_fit(w, dbs, at + 1, from_db(w, db, f));
    }
}

// ---------------------------------------------------------------------
// The poll
// ---------------------------------------------------------------------

/// A question to a message database.
#[derive(Debug, Clone)]
pub enum Question {
    /// Which message tables are there?
    Tables { db: String },
    /// Which columns has a table? The query is given.
    Columns { db: String, table: String, sql: String },
    /// Which rows does a query give behind an id?
    Rows { db: String, sql: String, after: i64 },
    /// Which name stands in a row of the name list?
    NameAt { db: String, row: i64 },
    /// Which names are in the name list?
    Names { db: String },
    /// Which greatest id does a query give?
    Greatest { db: String, sql: String },
    /// None: the poll is over.
    Nothing,
}

/// A question as a mathematical value.
pub enum QuestionView {
    Tables { db: Seq<char> },
    Columns { db: Seq<char>, table: Seq<char>, sql: Seq<char> },
    Rows { db: Seq<char>, sql: Seq<char>, after: i64 },
    NameAt { db: Seq<char>, row: i64 },
    Names { db: Seq<char> },
    Greatest { db: Seq<char>, sql: Seq<char> },
    Nothing,
}

impl View for Question {
    type V = QuestionView;

    open spec fn view(&self) -> QuestionView {
        match self {
            Question::Tables { db } => QuestionView::Tables { db: db@ },
            Question::Columns { db, table, sql } => QuestionView::Columns {
                db: db@,
                table: table@,
                sql: sql@,
            },
            Question::Rows { db, sql, after } => QuestionView::Rows {
                db: db@,
                sql: sql@,
                after: *after,
            },
            Question::NameAt { db, row } => QuestionView::NameAt { db: db@, row: *row },
            Question::Names { db } => QuestionView::Names { db: db@ },
            Question::Greatest { db, sql } => QuestionView::Greatest { db: db@, sql: sql@ },
            Question::Nothing => QuestionView::Nothing,
        }
    }
}

/// An answer of a message database.
#[derive(Debug, Clone)]
pub enum Answer {
    Tables(Vec<Cell>),
    /// Nothing where the query fails.
    Columns(Option<Vec<Cell>>),
    /// Nothing where the query fails.
    Rows(Option<Vec<MsgRow>>),
    /// Nothing where the query fails or gives no row.
    NameAt(Option<Cell>),
    Names(Vec<Cell>),
    /// Nothing where the query fails.
    Greatest(Option<Cell>),
}

/// Whether an answer is the one that some databases give to a question.
pub open spec fn answers(w: World, q: QuestionView, a: Answer) -> bool {
    match (q, a) {
        (QuestionView::Tables { db }, Answer::Tables(cells)) => (w.tables)(db) == cell::views_of(
            cells@,
        ),
        (QuestionView::Columns { db, table, sql }, Answer::Columns(cells)) => (w.columns)(
            db,
            table,
        ) == match cells {
            Some(v) => Some(cell::views_of(v@)),
            None => None,
        },
        (QuestionView::Rows { db, sql, after }, Answer::Rows(rows)) => (w.rows)(db, sql, after)
            == match rows {
            Some(v) => Some(cell::views_of(v@)),
            None => None,
        },
        (QuestionView::NameAt { db, row }, Answer::NameAt(c)) => (w.name_at)(db, row) == match c {
            Some(c) => Some(c@),
            None => None,
        },
        (QuestionView::Names { db }, Answer::Names(cells)) => (w.names)(db) == cell::views_of(
            cells@,
        ),
        (QuestionView::Greatest { db, sql }, Answer::Greatest(c)) => (w.greatest)(db, sql)
            == match c {
            Some(c) => Some(c@),
            None => None,
        },
        _ => false,
    }
}

/// Whether an answer is of the kind that a question asks for.
pub open spec fn suits(q: QuestionView, a: Answer) -> bool {
    match (q, a) {
        (QuestionView::Tables { .. }, Answer::Tables(_)) => true,
        (QuestionView::Columns { .. }, Answer::Columns(_)) => true,
        (QuestionView::Rows { .. }, Answer::Rows(_)) => true,
        (QuestionView::NameAt { .. }, Answer::NameAt(_)) => true,
        (QuestionView::Names { .. }, Answer::Names(_)) => true,
        (QuestionView::Greatest { .. }, Answer::Greatest(_)) => true,
        _ => false,
    }
}

/// Whether less is left in the first of two measures: the earliest part in
/// which they differ decides.
pub open spec fn less(a: (int, int, int, int), b: (int, int, int, int)) -> bool {
    ||| a.0 < b.0
    ||| a.0 == b.0 && a.1 < b.1
    ||| a.0 == b.0 && a.1 == b.1 && a.2 < b.2
    ||| a.0 == b.0 && a.1 == b.1 && a.2 == b.2 && a.3 < b.3
}

/// What a poll waits for.
#[derive(Debug, Clone, Copy, PartialEq, Eq, Structural)]
pub enum Stage {
    /// The tables of the current database.
    Tables,
    /// The columns of the current table.
    Columns,
    /// The rows of the current table.
    Rows,
    /// A name by its row, for the messages at hand.
    NameAt,
    /// All names, for the messages at hand.
    Names,
}

/// A poll under way.
#[derive(Debug, Clone)]
pub struct Poll {
    /// The databases, and which of them is being asked.
    pub dbs: Vec<String>,
    pub db: usize,
    pub stage: Stage,
    /// The tables of the current database, and the current one.
    pub tables: Vec<String>,
    /// How they are read, as far as that is known.
    pub known: Vec<TableMeta>,
    pub at: usize,
    /// The messages of the current table while its chat is looked up.
    pub fresh: Vec<RawMsg>,
    pub msgs: Vec<RawMsg>,
    pub marks: Table<i64>,
    pub metas: Table<TableMeta>,
    pub names: Table<String>,
}

impl Poll {
    /// What has been found and learned so far.
    pub open spec fn found(&self) -> Found {
        Found {
            msgs: cell::views_of(self.msgs@),
            marks: self.marks@,
            metas: self.metas@,
            names: self.names@,
        }
    }

    /// The name of the current database.
    pub open spec fn db_name(&self) -> Seq<char> {
        text::views(self.dbs@)[self.db as int]
    }

    /// Whether the parts fit together.
    pub open spec fn fits(&self) -> bool {
        &&& self.marks.wf()
        &&& self.metas.wf()
        &&& self.names.wf()
        &&& self.db <= self.dbs@.len()
        &&& self.stage != Stage::Tables ==> self.db < self.dbs@.len()
        &&& match self.stage {
            Stage::Tables => true,
            Stage::Columns => self.at <= self.tables@.len(),
            Stage::Rows => self.at <= self.known@.len(),
            Stage::NameAt => {
                &&& self.at < self.known@.len()
                &&& self.fresh@.len() > 0
                &&& schema::row_id_of(self.known@[self.at as int]@.table) is Some
            },
            Stage::Names => {
                &&& self.at < self.known@.len()
                &&& self.fresh@.len() > 0
                &&& schema::hash_of(self.known@[self.at as int]@.table) is Some
                &&& !self.names@.dom().contains(
                    schema::hash_of(self.known@[self.at as int]@.table)->0,
                )
            },
        }
    }

    /// Whether there is a question to ask.
    pub open spec fn waits(&self) -> bool {
        &&& self.fits()
        &&& match self.stage {
            Stage::Columns => self.at < self.tables@.len() && !self.metas@.dom().contains(
                schema::table_key(self.db_name(), self.tables@[self.at as int]@),
            ),
            Stage::Rows => self.at < self.known@.len(),
            _ => true,
        }
    }

    /// Whether the poll is over.
    pub open spec fn over(&self) -> bool {
        self.stage == Stage::Tables && self.db == self.dbs@.len()
    }

    /// The question to ask next.
    pub open spec fn next(&self) -> QuestionView {
        let db = self.db_name();
        match self.stage {
            Stage::Tables => if self.db < self.dbs@.len() {
                QuestionView::Tables { db }
            } else {
                QuestionView::Nothing
            },
            Stage::Columns => QuestionView::Columns {
                db,
                table: self.tables@[self.at as int]@,
                sql: "PRAGMA table_info("@ + self.tables@[self.at as int]@ + ")"@,
            },
            Stage::Rows => QuestionView::Rows {
                db,
                sql: self.known@[self.at as int]@.select_sql,
                after: mark_of(
                    self.marks@,
                    mark_key(db, self.known@[self.at as int]@.table),
                ),
            },
            Stage::NameAt => QuestionView::NameAt {
                db,
                row: schema::row_id_of(self.known@[self.at as int]@.table)->0,
            },
            Stage::Names => QuestionView::Names { db },
        }
    }

    /// What the poll will have found once all questions are answered.
    pub open spec fn outcome(&self, w: World) -> Found {
        let db = self.db_name();
        let dbs = text::views(self.dbs@);
        let f = self.found();
        let known = cell::views_of(self.known@);
        let at = self.at as int;
        match self.stage {
            Stage::Tables => from_dbs(w, dbs, self.db as int, f),
            Stage::Columns => from_dbs(
                w,
                dbs,
                self.db + 1,
                from_listed(w, db, f, text::views(self.tables@), at, known),
            ),
            Stage::Rows => from_dbs(w, dbs, self.db + 1, from_tables(w, db, f, known, at)),
            Stage::NameAt => from_dbs(
                w,
                dbs,
                self.db + 1,
                from_tables(
                    w,
                    db,
                    delivered(
                        f,
                        mark_key(db, known[at].table),
                        cell::views_of(self.fresh@),
                        chat_of(w, db, known[at].table, f.names),
                    ),
                    known,
                    at + 1,
                ),
            ),
            Stage::Names => from_dbs(
                w,
                dbs,
                self.db + 1,
                from_tables(
                    w,
                    db,
                    delivered(
                        f,
                        mark_key(db, known[at].table),
                        cell::views_of(self.fresh@),
                        chat_by_hash(w, db, known[at].table, f.names),
                    ),
                    known,
                    at + 1,
                ),
            ),
        }
    }

    /// Starts a poll of some databases, from the marks and table descriptions
    /// of earlier ones.
    pub fn start(dbs: Vec<String>, marks: Table<i64>, metas: Table<TableMeta>) -> (r: Poll)
        requires
            marks.wf(),
            metas.wf(),
        ensures
            r.waits(),
            forall|w: World| #[trigger]
                r.outcome(w) == from_dbs(
                    w,
                    text::views(dbs@),
                    0,
                    (Found {
                        msgs: Seq::empty(),
                        marks: marks@,
                        metas: metas@,
                        names: Map::empty(),
                    }),
                ),
    {
        let r = Poll {
            dbs,
            db: 0,
            stage: Stage::Tables,
            tables: Vec::new(),
            known: Vec::new(),
            at: 0,
            fresh: Vec::new(),
            msgs: Vec::new(),
            marks,
            metas,
            names: Table::new(),
        };
        assert(r.found().msgs =~= Seq::empty());
        r
    }

    /// The question to ask next.
    pub fn question(&self) -> (r: Question)
        requires
            self.waits(),
        ensures
            r@ == self.next(),
            r is Nothing <==> self.over(),
    {
        if self.db >= self.dbs.len() {
            return Question::Nothing;
        }
        let db = self.dbs[self.db].clone();
        match self.stage {
            Stage::Tables => Question::Tables { db },
            Stage::Columns => {
                let table = self.tables[self.at].clone();
                let sql = schema::columns_sql(table.as_str());
                Question::Columns { db, table, sql }
            },
            Stage::Rows => {
                let after: i64 = self.current_mark();
                Question::Rows { db, sql: self.known[self.at].select_sql.clone(), after }
            },
            Stage::NameAt => {
                let row: i64 = match schema::table_row_id(self.known[self.at].table.as_str()) {
                    Some(n) => n,
                    None => 0,
                };
                Question::NameAt { db, row }
            },
            Stage::Names => Question::Names { db },
        }
    }

    /// The key of the current table's mark.
    fn current_key(&self) -> (r: String)
        requires
            self.db < self.dbs@.len(),
            self.at < self.known@.len(),
        ensures
            r@ == mark_key(self.db_name(), self.known@[self.at as int]@.table),
    {
        let short = schema::short_name(self.dbs[self.db].as_str());
        schema::key_of(short.as_str(), self.known[self.at].table.as_str())
    }

    /// The greatest id seen in the current table.
    fn current_mark(&self) -> (r: i64)
        requires
            self.db < self.dbs@.len(),
            self.at < self.known@.len(),
            self.marks.wf(),
        ensures
            r == mark_of(
                self.marks@,
                mark_key(self.db_name(), self.known@[self.at as int]@.table),
            ),
    {
        let key = self.current_key();
        match self.marks.get(key.as_str()) {
            Some(n) => *n,
            None => 0,
        }
    }

    /// What is left to do, the weightiest part first: databases, phases of the
    /// current one, its tables, questions about the current table.
    pub open spec fn work_left(&self) -> (int, int, int, int) {
        (
            self.dbs@.len() - self.db,
            match self.stage {
                Stage::Tables => 2,
                Stage::Columns => 1,
                _ => 0,
            },
            match self.stage {
                Stage::Tables => 0,
                Stage::Columns => self.tables@.len() - self.at,
                _ => self.known@.len() - self.at,
            },
            match self.stage {
                Stage::NameAt => 1,
                Stage::Rows => 2,
                _ => 0,
            },
        )
    }

    /// Passes over everything that needs no question.
    fn settle(&mut self)
        requires
            old(self).fits(),
        ensures
            final(self).waits(),
            final(self).dbs == old(self).dbs,
            forall|w: World| #[trigger] final(self).outcome(w) == old(self).outcome(w),
            !less(old(self).work_left(), final(self).work_left()),
    {
        let ghost start = *self;
        if self.stage == Stage::Columns {
            let ghost first = *self;
            while self.at < self.tables.len()
                invariant_except_break
                    self.fits(),
                    self.stage == Stage::Columns,
                    self.dbs == start.dbs,
                    self.db == start.db,
                    self.tables == start.tables,
                    start.at <= self.at,
                    forall|w: World| #[trigger] self.outcome(w) == start.outcome(w),
                ensures
                    self.fits(),
                    self.stage == Stage::Columns,
                    self.dbs == start.dbs,
                    self.db == start.db,
                    self.tables == start.tables,
                    start.at <= self.at,
                    forall|w: World| #[trigger] self.outcome(w) == start.outcome(w),
                    self.at == self.tables@.len() || self.waits(),
                decreases self.tables@.len() - self.at,
            {
                let key = schema::key_of(
                    self.dbs[self.db].as_str(),
                    self.tables[self.at].as_str(),
                );
                let meta = match self.metas.get(key.as_str()) {
                    Some(m) => m.copy(),
                    None => {
                        break;
                    },
                };
                let ghost before = *self;
                self.known.push(meta);
                self.at = self.at + 1;
                assert(cell::views_of(self.known@) =~= cell::views_of(before.known@).push(meta@));
                assert forall|w: World| #[trigger] self.outcome(w) == start.outcome(w) by {
                    assert(before.outcome(w) == start.outcome(w));
                    assert(self.found() == before.found());
                }
            }
            if self.at == self.tables.len() {
                let ghost before = *self;
                self.stage = Stage::Rows;
                self.at = 0;
                assert forall|w: World| #[trigger] self.outcome(w) == start.outcome(w) by {
                    assert(before.outcome(w) == start.outcome(w));
                    assert(self.found() == before.found());
                    assert((Found { metas: self.metas@, ..self.found() }) == self.found());
                }
            }
        }
        if self.stage == Stage::Rows && self.at == self.known.len() {
            let ghost before = *self;
            self.stage = Stage::Tables;
            assert(self.db < self.dbs.len());
            self.db = self.db + 1;
            assert forall|w: World| #[trigger] self.outcome(w) == start.outcome(w) by {
                assert(before.outcome(w) == start.outcome(w));
                assert(self.found() == before.found());
            }
        }
    }

    /// Puts the messages at hand into their chat and goes on to the next table.
    fn deliver(&mut self, chat: String)
        requires
            old(self).marks.wf(),
            old(self).metas.wf(),
            old(self).names.wf(),
            old(self).db < old(self).dbs@.len(),
            old(self).at < old(self).known@.len(),
        ensures
            final(self).fits(),
            final(self).stage == Stage::Rows,
            final(self).dbs == old(self).dbs,
            final(self).db == old(self).db,
            final(self).tables == old(self).tables,
            final(self).known == old(self).known,
            final(self).at == old(self).at + 1,
            final(self).found() == delivered(
                old(self).found(),
                mark_key(old(self).db_name(), old(self).known@[old(self).at as int]@.table),
                cell::views_of(old(self).fresh@),
                (chat@, old(self).names@),
            ),
    {
        let key = self.current_key();
        let after: i64 = self.current_mark();
        let max: i64 = messages::place_all(
            &mut self.msgs,
            &self.fresh,
            chat.as_str(),
            key.as_str(),
            after,
        );
        self.marks.insert(key, max);
        self.stage = Stage::Rows;
        assert(self.at < self.known.len());
        self.at = self.at + 1;
    }

    /// Looks the chat of the messages at hand up by the hash in the table's
    /// name, or asks for the names first.
    fn look_up(&mut self)
        requires
            old(self).marks.wf(),
            old(self).metas.wf(),
            old(self).names.wf(),
            old(self).db < old(self).dbs@.len(),
            old(self).at < old(self).known@.len(),
            old(self).fresh@.len() > 0,
        ensures
            final(self).fits(),
            final(self).dbs == old(self).dbs,
            final(self).db == old(self).db,
            final(self).known == old(self).known,
            final(self).stage == Stage::Names && final(self).at == old(self).at
                || final(self).stage == Stage::Rows && final(self).at == old(self).at + 1,
            forall|w: World| #[trigger]
                final(self).outcome(w) == from_dbs(
                    w,
                    text::views(old(self).dbs@),
                    old(self).db + 1,
                    from_tables(
                        w,
                        old(self).db_name(),
                        delivered(
                            old(self).found(),
                            mark_key(
                                old(self).db_name(),
                                old(self).known@[old(self).at as int]@.table,
                            ),
                            cell::views_of(old(self).fresh@),
                            chat_by_hash(
                                w,
                                old(self).db_name(),
                                old(self).known@[old(self).at as int]@.table,
                                old(self).names@,
                            ),
                        ),
                        cell::views_of(old(self).known@),
                        old(self).at + 1,
                    ),
                ),
    {
        match schema::table_hash(self.known[self.at].table.as_str()) {
            Some(hash) => {
                if !self.names.contains(hash.as_str()) {
                    self.stage = Stage::Names;
                } else {
                    let chat = schema::name_or_table(
                        self.known[self.at].table.as_str(),
                        hash.as_str(),
                        &self.names,
                    );
                    self.deliver(chat);
                }
            },
            None => {
                let chat = self.known[self.at].table.clone();
                self.deliver(chat);
            },
        }
    }

    /// Takes an answer to the question asked and goes on to the next question.
    /// An answer of the wrong kind changes nothing.
    pub fn answer(&mut self, a: Answer)
        requires
            old(self).waits(),
        ensures
            final(self).waits(),
            final(self).dbs == old(self).dbs,
            !suits(old(self).next(), a) ==> *final(self) == *old(self),
            suits(old(self).next(), a) ==> less(final(self).work_left(), old(self).work_left()),
            forall|w: World|
                answers(w, old(self).next(), a) ==> #[trigger] final(self).outcome(w)
                    == old(self).outcome(w),
    {
        if self.db >= self.dbs.len() {
            return;
        }
        let ghost start = *self;
        match (self.stage, a) {
            (Stage::Tables, Answer::Tables(cells)) => {
                self.tables = cell::texts_in(&cells);
                self.known = Vec::new();
                self.at = 0;
                self.stage = Stage::Columns;
                assert(cell::views_of(self.known@) =~= Seq::<MetaView>::empty());
                assert forall|w: World| answers(w, start.next(), a) implies #[trigger] self.outcome(
                    w,
                ) == start.outcome(w) by {
                    assert(self.found() == start.found());
                }
                self.settle();
            },
            (Stage::Columns, Answer::Columns(cells)) => {
                let table = self.tables[self.at].clone();
                let meta = match &cells {
                    Some(v) => {
                        let columns = cell::texts_in(v);
                        schema::build_single_table_meta(table.as_str(), &columns)
                    },
                    None => None,
                };
                if let Some(m) = meta {
                    let key = schema::key_of(self.dbs[self.db].as_str(), table.as_str());
                    self.metas.insert(key, m.copy());
                    self.known.push(m);
                    assert(cell::views_of(self.known@) =~= cell::views_of(start.known@).push(m@));
                }
                assert(self.at < self.tables.len());
                self.at = self.at + 1;
                assert forall|w: World| answers(w, start.next(), a) implies #[trigger] self.outcome(
                    w,
                ) == start.outcome(w) by {
                    assert(self.found().msgs == start.found().msgs);
                }
                self.settle();
            },
            (Stage::Rows, Answer::Rows(rows)) => {
                let fresh = match &rows {
                    Some(v) => messages::read_rows(v),
                    None => Vec::new(),
                };
                if fresh.len() == 0 {
                    assert(self.at < self.known.len());
                    self.at = self.at + 1;
                    assert forall|w: World|
                        answers(w, start.next(), a) implies #[trigger] self.outcome(w)
                        == start.outcome(w) by {
                        assert(self.found() == start.found());
                    }
                    self.settle();
                } else {
                    self.fresh = fresh;
                    match schema::table_row_id(self.known[self.at].table.as_str()) {
                        Some(_) => {
                            self.stage = Stage::NameAt;
                        },
                        None => {
                            self.look_up();
                            self.settle();
                        },
                    }
                }
            },
            (Stage::NameAt, Answer::NameAt(c)) => {
                let name = match &c {
                    Some(c) => c.get_text(),
                    None => None,
                };
                match name {
                    Some(name) => {
                        self.deliver(name);
                    },
                    None => {
                        self.look_up();
                    },
                }
                self.settle();
            },
            (Stage::Names, Answer::Names(cells)) => {
                let names = cell::texts_in(&cells);
                schema::index_names(&mut self.names, &names);
                let hash = match schema::table_hash(self.known[self.at].table.as_str()) {
                    Some(h) => h,
                    None => String::new(),
                };
                let chat = schema::name_or_table(
                    self.known[self.at].table.as_str(),
                    hash.as_str(),
                    &self.names,
                );
                self.deliver(chat);
                self.settle();
            },
            _ => {},
        }
    }
}

/// A table numbered by a row of the name list is the chat named there, and what
/// is known of other names stays as it is.
pub proof fn law_row_names_the_chat(
    w: World,
    db: Seq<char>,
    row: i64,
    name: Seq<char>,
    names: Map<Seq<char>, Seq<char>>,
)
    requires
        (w.name_at)(db, row) == Some(CellView::Text(name)),
    ensures
        chat_of(w, db, "ChatMsg_"@ + number::int_dec(row as int), names) == (name, names),
{
    schema::law_tables_name_their_chats(row, Seq::empty(), Seq::empty());
}

/// A table that names no chat, by a row that is not there or by a hash that
/// nobody has, is its own chat; a hash that is known is not asked for again, and
/// gives the name that is known.
pub proof fn law_unknown_chats_keep_their_tables(
    w: World,
    db: Seq<char>,
    row: i64,
    hash: Seq<char>,
    table: Seq<char>,
    names: Map<Seq<char>, Seq<char>>,
)
    requires
        (w.name_at)(db, row) is None,
        schema::row_id_of(table) is None,
    ensures
        chat_of(w, db, "ChatMsg_"@ + number::int_dec(row as int), names) == (
            "ChatMsg_"@ + number::int_dec(row as int),
            names,
        ),
        schema::hash_of(table) is None ==> chat_of(w, db, table, names) == (table, names),
        schema::hash_of(table) == Some(hash) && names.dom().contains(hash) ==> chat_of(
            w,
            db,
            table,
            names,
        ) == (names[hash], names),
        schema::hash_of(table) == Some(hash) && !names.dom().contains(hash) && (forall|i: int|
            0 <= i < cell::texts((w.names)(db)).len() ==> schema::name_hash(
                #[trigger] cell::texts((w.names)(db))[i],
            ) != hash) ==> chat_of(w, db, table, names).0 == table,
{
    let numbered = "ChatMsg_"@ + number::int_dec(row as int);
    schema::law_tables_name_their_chats(row, hash, numbered);
    reveal_strlit("ChatMsg_");
    reveal_strlit("Msg_");
    reveal_strlit("MSG_");
    reveal_strlit("Chat_");
    assert(numbered[4] == 'M' && numbered[0] == 'C');
    if text::begins(numbered, "Msg_"@) {
        assert(numbered.subrange(0, 4)[0] == 'M');
    }
    if text::begins(numbered, "MSG_"@) {
        assert(numbered.subrange(0, 4)[0] == 'M');
    }
    if text::begins(numbered, "Chat_"@) {
        assert(numbered.subrange(0, 5)[4] == '_');
    }
    let read = cell::texts((w.names)(db));
    if schema::hash_of(table) == Some(hash) && (forall|i: int|
        0 <= i < read.len() ==> schema::name_hash(#[trigger] read[i]) != hash) {
        schema::law_names_are_found_by_hash(names, read, Seq::empty(), Seq::empty(), table, hash);
    }
}

/// A table without a mark is read from its start on, one with a mark from there
/// on; a mark for one table is none for another.
pub proof fn law_marks_are_looked_up(
    marks: Map<Seq<char>, i64>,
    key: Seq<char>,
    other: Seq<char>,
    n: i64,
)
    ensures
        mark_of(marks.insert(key, n), key) == n,
        mark_of(marks.remove(key), key) == 0,
        other != key ==> mark_of(marks.insert(key, n), other) == mark_of(marks, other),
{
}

/// What a table answers is added behind what was found, all of it in the chat of
/// the table, in order, and moves the mark of this table alone; a table that
/// answers nothing changes nothing.
pub proof fn law_tables_add_their_messages(
    w: World,
    db: Seq<char>,
    f: Found,
    meta: MetaView,
    i: int,
    other: Seq<char>,
)
    ensures
        ({
            let key = mark_key(db, meta.table);
            let g = from_table(w, db, f, meta);
            match (w.rows)(db, meta.select_sql, mark_of(f.marks, key)) {
                Some(rows) => {
                    let msgs = messages::raws_of(rows);
                    &&& g.msgs.len() == f.msgs.len() + msgs.len()
                    &&& 0 <= i < f.msgs.len() ==> g.msgs[i] == f.msgs[i]
                    &&& 0 <= i < msgs.len() ==> {
                        let m = g.msgs[f.msgs.len() + i];
                        &&& m.chat == chat_of(w, db, meta.table, f.names).0
                        &&& m.table_key == key
                        &&& m.local_id == msgs[i].local_id
                        &&& m.content == msgs[i].content
                    }
                    &&& msgs.len() == 0 ==> g == f
                    &&& other != key ==> mark_of(g.marks, other) == mark_of(f.marks, other)
                    &&& g.metas == f.metas
                },
                None => g == f,
            }
        }),
{
}

} // verus!
