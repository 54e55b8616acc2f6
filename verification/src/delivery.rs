//! What polls promise as a whole: the keys of tables do not mix, no message that
//! can be read is lost, and nothing comes again or was there before the marking.
use vstd::prelude::*;
use crate::cell;
use crate::db;
use crate::keys;
use crate::marking;
use crate::messages;
use crate::messages::RawView;
use crate::poll;
use crate::poll::{Found, World};
use crate::schema;
use crate::schema::MetaView;
use crate::text;

verus! {

// ---------------------------------------------------------------------
// Keys
// ---------------------------------------------------------------------

/// Whether a path is that of a message database.
pub open spec fn is_message_path(db: Seq<char>) -> bool {
    exists|name: Seq<char>| #[trigger] keys::names_message_db(name) && db == "message/"@ + name
}

proof fn lemma_short_name(name: Seq<char>)
    requires
        keys::names_message_db(name),
    ensures
        schema::db_prefix("message/"@ + name) == name.take(name.len() - 3),
        name == name.take(name.len() - 3) + ".db"@,
        !name.take(name.len() - 3).contains(':'),
{
    reveal_strlit("message/");
    reveal_strlit("message_");
    reveal_strlit(".db");
    let path = "message/"@ + name;
    assert(path.subrange(0, 8) =~= "message/"@);
    assert(path.skip(8) =~= name);
    assert(name.subrange(0, 8) =~= "message_"@);
    assert(name[7] == name.subrange(0, 8)[7]);
    assert(!text::begins(name, "message/"@)) by {
        if text::begins(name, "message/"@) {
            assert(name.subrange(0, 8)[7] == '/');
        }
    }
    assert(schema::strip_all_prefix(name, "message/"@) == name);
    assert(schema::strip_all_prefix(path, "message/"@) == name);
    let rest = name.skip(8);
    let digits = rest.take(rest.len() - 3);
    let short = name.take(name.len() - 3);
    assert(rest.subrange(rest.len() - 3, rest.len() as int) =~= ".db"@);
    assert(name.subrange(name.len() - 3, name.len() as int) =~= ".db"@) by {
        assert(name.subrange(name.len() - 3, name.len() as int) =~= rest.subrange(
            rest.len() - 3,
            rest.len() as int,
        ));
    }
    assert(name =~= short + ".db"@) by {
        assert(name =~= short + name.subrange(name.len() - 3, name.len() as int));
    }
    assert(short.last() == digits.last());
    assert(text::is_digit(digits[digits.len() - 1]));
    assert(!text::ends(short, ".db"@)) by {
        if text::ends(short, ".db"@) {
            assert(short.subrange(short.len() - 3, short.len() as int)[2] == 'b');
        }
    }
    assert(schema::strip_all_suffix(short, ".db"@) == short);
    assert(schema::strip_all_suffix(name, ".db"@) == short);
    assert forall|k: int| 0 <= k < short.len() implies short[k] != ':' by {
        if k < 8 {
            assert(short[k] == name.subrange(0, 8)[k]);
        } else {
            assert(short[k] == digits[k - 8]);
            assert(text::is_digit(digits[k - 8]));
        }
    }
}

/// A key says which database and which table it is for, as long as the name of
/// the database has no colon.
proof fn lemma_key_splits(a: Seq<char>, t: Seq<char>, b: Seq<char>, u: Seq<char>)
    requires
        !a.contains(':'),
        !b.contains(':'),
        schema::table_key(a, t) == schema::table_key(b, u),
    ensures
        a == b,
        t == u,
{
    reveal_strlit("::");
    let key = schema::table_key(a, t);
    assert(key == a + "::"@ + t);
    assert(key == b + "::"@ + u);
    assert(key[a.len() as int] == ':');
    assert(key[b.len() as int] == ':');
    if a.len() < b.len() {
        assert(key[a.len() as int] == b[a.len() as int]);
        assert(b.contains(':'));
    }
    if b.len() < a.len() {
        assert(key[b.len() as int] == a[b.len() as int]);
        assert(a.contains(':'));
    }
    assert(a =~= key.take(a.len() as int));
    assert(b =~= key.take(b.len() as int));
    assert(t =~= key.skip(a.len() as int + 2));
    assert(u =~= key.skip(b.len() as int + 2));
}

proof fn lemma_path(db: Seq<char>)
    requires
        is_message_path(db),
    ensures
        !db.contains(':'),
        !schema::db_prefix(db).contains(':'),
        db == "message/"@ + schema::db_prefix(db) + ".db"@,
{
    let name = choose|name: Seq<char>| #[trigger]
        keys::names_message_db(name) && db == "message/"@ + name;
    lemma_short_name(name);
    reveal_strlit("message/");
    reveal_strlit(".db");
    let short = name.take(name.len() - 3);
    assert(db =~= "message/"@ + short + ".db"@);
    assert forall|k: int| 0 <= k < db.len() implies db[k] != ':' by {
        if k < 8 {
            assert(db[k] == "message/"@[k]);
        } else if k < 8 + short.len() {
            assert(db[k] == short[k - 8]);
            assert(short.contains(short[k - 8]));
        } else {
            assert(db[k] == ".db"@[k - 8 - short.len()]);
        }
    }
}

/// The marks of different tables, and of tables in different message
/// databases, do not mix: each stands under a key of its own.
pub proof fn law_marks_do_not_mix(
    db1: Seq<char>,
    table1: Seq<char>,
    db2: Seq<char>,
    table2: Seq<char>,
)
    requires
        is_message_path(db1),
        is_message_path(db2),
        poll::mark_key(db1, table1) == poll::mark_key(db2, table2),
    ensures
        db1 == db2,
        table1 == table2,
{
    lemma_path(db1);
    lemma_path(db2);
    lemma_key_splits(schema::db_prefix(db1), table1, schema::db_prefix(db2), table2);
}

// ---------------------------------------------------------------------
// Completeness
// ---------------------------------------------------------------------

/// Whether what is known of tables stands under their own keys.
pub open spec fn metas_fit(metas: Map<Seq<char>, MetaView>) -> bool {
    forall|db: Seq<char>, table: Seq<char>|
        is_message_path(db) && metas.dom().contains(#[trigger] schema::table_key(db, table))
            ==> metas[schema::table_key(db, table)].table == table
}

/// How a table is read, from what is known already or from its columns.
pub open spec fn meta_for(
    w: World,
    db: Seq<char>,
    table: Seq<char>,
    metas: Map<Seq<char>, MetaView>,
) -> Option<MetaView> {
    if metas.dom().contains(schema::table_key(db, table)) {
        Some(metas[schema::table_key(db, table)])
    } else {
        poll::learned(w, db, table)
    }
}

/// Whether a message is among some, in whatever chat.
pub open spec fn is_among(m: RawView, key: Seq<char>, msgs: Seq<RawView>) -> bool {
    exists|j: int|
        0 <= j < msgs.len() && (#[trigger] msgs[j]) == messages::placed(m, msgs[j].chat, key)
}

/// What a table's query gives behind its mark, as far as it can be read.
pub open spec fn waiting(
    w: World,
    db: Seq<char>,
    meta: MetaView,
    marks: Map<Seq<char>, i64>,
) -> Seq<RawView> {
    match (w.rows)(db, meta.select_sql, poll::mark_of(marks, poll::mark_key(db, meta.table))) {
        Some(rows) => messages::raws_of(rows),
        None => Seq::empty(),
    }
}

proof fn lemma_stays_among(m: RawView, key: Seq<char>, a: Found, b: Found, w: World)
    requires
        is_among(m, key, a.msgs),
        poll::extends(a, b, w),
    ensures
        is_among(m, key, b.msgs),
{
    let j = choose|j: int|
        0 <= j < a.msgs.len() && (#[trigger] a.msgs[j]) == messages::placed(m, a.msgs[j].chat, key);
    assert(b.msgs.take(a.msgs.len() as int)[j] == b.msgs[j]);
    assert(b.msgs[j] == a.msgs[j]);
}

proof fn lemma_gather_keeps(
    w: World,
    db: Seq<char>,
    tables: Seq<Seq<char>>,
    at: int,
    known: Seq<MetaView>,
    metas: Map<Seq<char>, MetaView>,
)
    ensures
        ({
            let g = poll::gather(w, db, tables, at, known, metas);
            g.0.len() >= known.len() && forall|k: int|
                0 <= k < known.len() ==> (#[trigger] g.0[k]) == known[k]
        }),
    decreases tables.len() - at,
{
    if at < tables.len() {
        let key = schema::table_key(db, tables[at]);
        if metas.dom().contains(key) {
            lemma_gather_keeps(w, db, tables, at + 1, known.push(metas[key]), metas);
        } else {
            match poll::learned(w, db, tables[at]) {
                Some(m) => {
                    lemma_gather_keeps(
                        w,
                        db,
                        tables,
                        at + 1,
                        known.push(m),
                        metas.insert(key, m),
                    );
                },
                None => {
                    lemma_gather_keeps(w, db, tables, at + 1, known, metas);
                },
            }
        }
    }
}

proof fn lemma_fit_insert(
    w: World,
    db: Seq<char>,
    table: Seq<char>,
    m: MetaView,
    metas: Map<Seq<char>, MetaView>,
)
    requires
        is_message_path(db),
        metas_fit(metas),
        poll::learned(w, db, table) == Some(m),
    ensures
        m.table == table,
        metas_fit(metas.insert(schema::table_key(db, table), m)),
{
    let key = schema::table_key(db, table);
    let after = metas.insert(key, m);
    assert forall|d: Seq<char>, t: Seq<char>|
        is_message_path(d) && after.dom().contains(
            #[trigger] schema::table_key(d, t),
        ) implies after[schema::table_key(d, t)].table == t by {
        lemma_path(d);
        lemma_path(db);
        if schema::table_key(d, t) == key {
            lemma_key_splits(d, t, db, table);
        }
    }
}

/// Gathering what is known of a database's tables changes nothing in how any
/// table is read, and keeps all under its own key.
proof fn lemma_gather_fits(
    w: World,
    db: Seq<char>,
    tables: Seq<Seq<char>>,
    at: int,
    known: Seq<MetaView>,
    metas: Map<Seq<char>, MetaView>,
    other: Seq<char>,
    table: Seq<char>,
)
    requires
        is_message_path(db),
        is_message_path(other),
        metas_fit(metas),
    ensures
        ({
            let g = poll::gather(w, db, tables, at, known, metas);
            &&& metas_fit(g.1)
            &&& meta_for(w, other, table, g.1) == meta_for(w, other, table, metas)
        }),
    decreases tables.len() - at,
{
    if at < tables.len() {
        let key = schema::table_key(db, tables[at]);
        if metas.dom().contains(key) {
            lemma_gather_fits(
                w,
                db,
                tables,
                at + 1,
                known.push(metas[key]),
                metas,
                other,
                table,
            );
        } else {
            match poll::learned(w, db, tables[at]) {
                Some(m) => {
                    lemma_fit_insert(w, db, tables[at], m, metas);
                    lemma_gather_fits(
                        w,
                        db,
                        tables,
                        at + 1,
                        known.push(m),
                        metas.insert(key, m),
                        other,
                        table,
                    );
                    lemma_path(db);
                    lemma_path(other);
                    if schema::table_key(other, table) == key {
                        lemma_key_splits(other, table, db, tables[at]);
                    }
                },
                None => {
                    lemma_gather_fits(w, db, tables, at + 1, known, metas, other, table);
                },
            }
        }
    }
}

/// A table that can be read is among those gathered, and none before it has its
/// name.
proof fn lemma_gather_reaches(
    w: World,
    db: Seq<char>,
    tables: Seq<Seq<char>>,
    at: int,
    known: Seq<MetaView>,
    metas: Map<Seq<char>, MetaView>,
    i: int,
) -> (j: int)
    requires
        is_message_path(db),
        metas_fit(metas),
        0 <= at <= i < tables.len(),
        meta_for(w, db, tables[i], metas) is Some,
    ensures
        ({
            let g = poll::gather(w, db, tables, at, known, metas);
            &&& known.len() <= j < g.0.len()
            &&& g.0[j] == meta_for(w, db, tables[i], metas)->0
            &&& g.0[j].table == tables[i]
            &&& forall|k: int|
                known.len() <= k < j ==> (#[trigger] g.0[k]).table != tables[i]
        }),
    decreases tables.len() - at,
{
    let table = tables[i];
    let m = meta_for(w, db, table, metas)->0;
    let key = schema::table_key(db, tables[at]);
    lemma_path(db);
    if tables[at] == table {
        if metas.dom().contains(key) {
            lemma_gather_keeps(w, db, tables, at + 1, known.push(m), metas);
        } else {
            lemma_fit_insert(w, db, table, m, metas);
            lemma_gather_keeps(w, db, tables, at + 1, known.push(m), metas.insert(key, m));
        }
        let g = poll::gather(w, db, tables, at, known, metas);
        assert(known.push(m)[known.len() as int] == m);
        assert(g.0[known.len() as int] == m);
        known.len() as int
    } else {
        if metas.dom().contains(key) {
            lemma_gather_keeps(w, db, tables, at + 1, known.push(metas[key]), metas);
            let j = lemma_gather_reaches(
                w,
                db,
                tables,
                at + 1,
                known.push(metas[key]),
                metas,
                i,
            );
            let g = poll::gather(w, db, tables, at, known, metas);
            assert(g.0[known.len() as int] == known.push(metas[key])[known.len() as int]);
            assert(metas[key].table == tables[at]);
            j
        } else {
            match poll::learned(w, db, tables[at]) {
                Some(x) => {
                    lemma_fit_insert(w, db, tables[at], x, metas);
                    let next = metas.insert(key, x);
                    if schema::table_key(db, table) == key {
                        lemma_key_splits(db, table, db, tables[at]);
                    }
                    assert(meta_for(w, db, table, next) == Some(m));
                    lemma_gather_keeps(w, db, tables, at + 1, known.push(x), next);
                    let j = lemma_gather_reaches(w, db, tables, at + 1, known.push(x), next, i);
                    let g = poll::gather(w, db, tables, at, known, metas);
                    assert(g.0[known.len() as int] == known.push(x)[known.len() as int]);
                    j
                },
                None => lemma_gather_reaches(w, db, tables, at + 1, known, metas, i),
            }
        }
    }
}

/// Reading one table leaves the marks of others and all that is known of
/// tables.
proof fn lemma_table_elsewhere(
    w: World,
    db: Seq<char>,
    f: Found,
    meta: MetaView,
    other: Seq<char>,
    table: Seq<char>,
)
    requires
        is_message_path(db),
        is_message_path(other),
        other != db || table != meta.table,
    ensures
        poll::mark_of(poll::from_table(w, db, f, meta).marks, poll::mark_key(other, table))
            == poll::mark_of(f.marks, poll::mark_key(other, table)),
        poll::from_table(w, db, f, meta).metas == f.metas,
{
    if poll::mark_key(other, table) == poll::mark_key(db, meta.table) {
        law_marks_do_not_mix(other, table, db, meta.table);
    }
}

proof fn lemma_tables_elsewhere(
    w: World,
    db: Seq<char>,
    f: Found,
    known: Seq<MetaView>,
    at: int,
    other: Seq<char>,
    table: Seq<char>,
)
    requires
        is_message_path(db),
        is_message_path(other),
        other != db,
    ensures
        poll::mark_of(
            poll::from_tables(w, db, f, known, at).marks,
            poll::mark_key(other, table),
        ) == poll::mark_of(f.marks, poll::mark_key(other, table)),
        poll::from_tables(w, db, f, known, at).metas == f.metas,
    decreases known.len() - at,
{
    if at < known.len() {
        lemma_table_elsewhere(w, db, f, known[at], other, table);
        let g = poll::from_table(w, db, f, known[at]);
        lemma_tables_elsewhere(w, db, g, known, at + 1, other, table);
    }
}

/// What waits in a table comes out, where no table before it has its name.
proof fn lemma_tables_deliver(
    w: World,
    db: Seq<char>,
    f: Found,
    known: Seq<MetaView>,
    at: int,
    j: int,
    i: int,
)
    requires
        is_message_path(db),
        0 <= at <= j < known.len(),
        forall|k: int| at <= k < j ==> (#[trigger] known[k]).table != known[j].table,
        0 <= i < waiting(w, db, known[j], f.marks).len(),
    ensures
        is_among(
            waiting(w, db, known[j], f.marks)[i],
            poll::mark_key(db, known[j].table),
            poll::from_tables(w, db, f, known, at).msgs,
        ),
    decreases known.len() - at,
{
    let meta = known[at];
    let g = poll::from_table(w, db, f, meta);
    if at == j {
        let key = poll::mark_key(db, meta.table);
        let raws = waiting(w, db, meta, f.marks);
        let chat = poll::chat_of(w, db, meta.table, f.names);
        let n = f.msgs.len();
        assert(g.msgs == f.msgs + messages::all_placed(raws, chat.0, key));
        assert(g.msgs[n + i] == messages::placed(raws[i], chat.0, key));
        assert(is_among(raws[i], key, g.msgs));
        poll::lemma_tables_extend(w, db, g, known, at + 1);
        lemma_stays_among(
            raws[i],
            key,
            g,
            poll::from_tables(w, db, g, known, at + 1),
            w,
        );
    } else {
        assert(known[at].table != known[j].table);
        lemma_table_elsewhere(w, db, f, meta, db, known[j].table);
        lemma_tables_deliver(w, db, g, known, at + 1, j, i);
    }
}

/// Reading one database leaves the marks of others and how any table is read,
/// and keeps all under its own key.
proof fn lemma_db_elsewhere(
    w: World,
    db: Seq<char>,
    f: Found,
    other: Seq<char>,
    table: Seq<char>,
)
    requires
        is_message_path(db),
        is_message_path(other),
        metas_fit(f.metas),
    ensures
        metas_fit(poll::from_db(w, db, f).metas),
        meta_for(w, other, table, poll::from_db(w, db, f).metas) == meta_for(
            w,
            other,
            table,
            f.metas,
        ),
        other != db ==> poll::mark_of(
            poll::from_db(w, db, f).marks,
            poll::mark_key(other, table),
        ) == poll::mark_of(f.marks, poll::mark_key(other, table)),
{
    let tables = cell::texts((w.tables)(db));
    let g = poll::gather(w, db, tables, 0, Seq::empty(), f.metas);
    lemma_gather_fits(w, db, tables, 0, Seq::empty(), f.metas, other, table);
    let start = Found { metas: g.1, ..f };
    lemma_tables_keep_metas(w, db, start, g.0, 0);
    if other != db {
        lemma_tables_elsewhere(w, db, start, g.0, 0, other, table);
    }
}

proof fn lemma_tables_keep_metas(
    w: World,
    db: Seq<char>,
    f: Found,
    known: Seq<MetaView>,
    at: int,
)
    ensures
        poll::from_tables(w, db, f, known, at).metas == f.metas,
    decreases known.len() - at,
{
    if at < known.len() {
        lemma_tables_keep_metas(w, db, poll::from_table(w, db, f, known[at]), known, at + 1);
    }
}

proof fn lemma_dbs_deliver(
    w: World,
    dbs: Seq<Seq<char>>,
    at: int,
    f: Found,
    d: int,
    table: Seq<char>,
    i: int,
)
    requires
        forall|k: int| 0 <= k < dbs.len() ==> is_message_path(#[trigger] dbs[k]),
        metas_fit(f.metas),
        0 <= at <= d < dbs.len(),
        forall|k: int| at <= k < d ==> (#[trigger] dbs[k]) != dbs[d],
        cell::texts((w.tables)(dbs[d])).contains(table),
        meta_for(w, dbs[d], table, f.metas) is Some,
        0 <= i < waiting(w, dbs[d], meta_for(w, dbs[d], table, f.metas)->0, f.marks).len(),
    ensures
        is_among(
            waiting(w, dbs[d], meta_for(w, dbs[d], table, f.metas)->0, f.marks)[i],
            poll::mark_key(dbs[d], table),
            poll::from_dbs(w, dbs, at, f).msgs,
        ),
    decreases dbs.len() - at,
{
    let db = dbs[at];
    assert(is_message_path(dbs[at]));
    assert(is_message_path(dbs[d]));
    let next = poll::from_db(w, db, f);
    if at == d {
        let tables = cell::texts((w.tables)(db));
        let k = choose|k: int| 0 <= k < tables.len() && tables[k] == table;
        let g = poll::gather(w, db, tables, 0, Seq::empty(), f.metas);
        let j = lemma_gather_reaches(w, db, tables, 0, Seq::empty(), f.metas, k);
        let start = Found { metas: g.1, ..f };
        let m = waiting(w, db, g.0[j], f.marks)[i];
        lemma_tables_deliver(w, db, start, g.0, 0, j, i);
        poll::law_marks_rise(w, dbs, at + 1, next);
        lemma_stays_among(
            m,
            poll::mark_key(db, table),
            next,
            poll::from_dbs(w, dbs, at + 1, next),
            w,
        );
    } else {
        lemma_db_elsewhere(w, db, f, dbs[d], table);
        let meta = meta_for(w, dbs[d], table, f.metas)->0;
        lemma_meta_named(w, dbs[d], table, f.metas);
        assert(waiting(w, dbs[d], meta, next.marks) == waiting(w, dbs[d], meta, f.marks));
        lemma_dbs_deliver(w, dbs, at + 1, next, d, table, i);
    }
}

proof fn lemma_meta_named(
    w: World,
    db: Seq<char>,
    table: Seq<char>,
    metas: Map<Seq<char>, MetaView>,
)
    requires
        is_message_path(db),
        metas_fit(metas),
        meta_for(w, db, table, metas) is Some,
    ensures
        (meta_for(w, db, table, metas)->0).table == table,
{
}

proof fn lemma_first(dbs: Seq<Seq<char>>, d: int) -> (e: int)
    requires
        0 <= d < dbs.len(),
    ensures
        0 <= e <= d,
        dbs[e] == dbs[d],
        forall|k: int| 0 <= k < e ==> (#[trigger] dbs[k]) != dbs[d],
    decreases d,
{
    if exists|k: int| 0 <= k < d && (#[trigger] dbs[k]) == dbs[d] {
        let k = choose|k: int| 0 <= k < d && (#[trigger] dbs[k]) == dbs[d];
        lemma_first(dbs, k)
    } else {
        d
    }
}

/// No message is lost: whatever a table's query gives behind the mark of the
/// table, and that can be read, is among what a poll finds, for every table of
/// every message database that is asked.
pub proof fn law_no_message_lost(
    w: World,
    dbs: Seq<Seq<char>>,
    f: Found,
    d: int,
    table: Seq<char>,
    i: int,
)
    requires
        forall|k: int| 0 <= k < dbs.len() ==> is_message_path(#[trigger] dbs[k]),
        metas_fit(f.metas),
        0 <= d < dbs.len(),
        cell::texts((w.tables)(dbs[d])).contains(table),
        meta_for(w, dbs[d], table, f.metas) is Some,
        0 <= i < waiting(w, dbs[d], meta_for(w, dbs[d], table, f.metas)->0, f.marks).len(),
    ensures
        is_among(
            waiting(w, dbs[d], meta_for(w, dbs[d], table, f.metas)->0, f.marks)[i],
            poll::mark_key(dbs[d], table),
            poll::from_dbs(w, dbs, 0, f).msgs,
        ),
{
    let e = lemma_first(dbs, d);
    lemma_dbs_deliver(w, dbs, 0, f, e, table, i);
}

/// What polls learn of tables stays under the tables' own keys.
pub proof fn law_metas_stay_fit(w: World, dbs: Seq<Seq<char>>, at: int, f: Found)
    requires
        0 <= at,
        forall|k: int| 0 <= k < dbs.len() ==> is_message_path(#[trigger] dbs[k]),
        metas_fit(f.metas),
    ensures
        metas_fit(poll::from_dbs(w, dbs, at, f).metas),
    decreases dbs.len() - at,
{
    if at < dbs.len() {
        assert(is_message_path(dbs[at]));
        lemma_db_elsewhere(w, dbs[at], f, dbs[at], Seq::empty());
        law_metas_stay_fit(w, dbs, at + 1, poll::from_db(w, dbs[at], f));
    }
}

/// What a manager keeps of the tables stays under their own keys as well.
pub proof fn law_cache_stays_fit(
    cache: Map<Seq<char>, MetaView>,
    learned: Map<Seq<char>, MetaView>,
)
    requires
        metas_fit(cache),
        metas_fit(learned),
    ensures
        metas_fit(db::completed(cache, learned)),
{
}

// ---------------------------------------------------------------------
// Polling again
// ---------------------------------------------------------------------

/// Whether databases are steady: what a query gives behind an id, it also gives
/// behind a lesser one.
pub open spec fn steady(w: World) -> bool {
    forall|db: Seq<char>, sql: Seq<char>, low: i64, high: i64, i: int|
        #![trigger messages::raws_of((w.rows)(db, sql, high)->0)[i], (w.rows)(db, sql, low)]
        low <= high && (w.rows)(db, sql, high) is Some && 0 <= i < messages::raws_of(
            (w.rows)(db, sql, high)->0,
        ).len() ==> (w.rows)(db, sql, low) is Some && messages::raws_of(
            (w.rows)(db, sql, low)->0,
        ).contains(messages::raws_of((w.rows)(db, sql, high)->0)[i])
}

/// A poll changes nothing in how any table is read.
proof fn lemma_dbs_keep_reading(
    w: World,
    dbs: Seq<Seq<char>>,
    at: int,
    f: Found,
    other: Seq<char>,
    table: Seq<char>,
)
    requires
        0 <= at,
        forall|k: int| 0 <= k < dbs.len() ==> is_message_path(#[trigger] dbs[k]),
        is_message_path(other),
        metas_fit(f.metas),
    ensures
        meta_for(w, other, table, poll::from_dbs(w, dbs, at, f).metas) == meta_for(
            w,
            other,
            table,
            f.metas,
        ),
    decreases dbs.len() - at,
{
    if at < dbs.len() {
        assert(is_message_path(dbs[at]));
        lemma_db_elsewhere(w, dbs[at], f, other, table);
        lemma_dbs_keep_reading(w, dbs, at + 1, poll::from_db(w, dbs[at], f), other, table);
    }
}

/// Whether a way of reading is that of a table in a list.
spec fn reads_listed(
    w: World,
    db: Seq<char>,
    tables: Seq<Seq<char>>,
    metas: Map<Seq<char>, MetaView>,
    m: MetaView,
) -> bool {
    tables.contains(m.table) && meta_for(w, db, m.table, metas) == Some(m)
}

/// Only tables of the list are gathered.
proof fn lemma_gather_lists(
    w: World,
    db: Seq<char>,
    tables: Seq<Seq<char>>,
    at: int,
    known: Seq<MetaView>,
    metas: Map<Seq<char>, MetaView>,
    k: int,
)
    requires
        is_message_path(db),
        metas_fit(metas),
        0 <= at,
        forall|j: int|
            0 <= j < known.len() ==> reads_listed(w, db, tables, metas, #[trigger] known[j]),
        0 <= k < poll::gather(w, db, tables, at, known, metas).0.len(),
    ensures
        reads_listed(
            w,
            db,
            tables,
            metas,
            poll::gather(w, db, tables, at, known, metas).0[k],
        ),
    decreases tables.len() - at,
{
    if at < tables.len() {
        let table = tables[at];
        let key = schema::table_key(db, table);
        if metas.dom().contains(key) {
            assert(metas[key].table == table);
            lemma_gather_lists(w, db, tables, at + 1, known.push(metas[key]), metas, k);
        } else {
            match poll::learned(w, db, table) {
                Some(m) => {
                    lemma_fit_insert(w, db, table, m, metas);
                    let next = metas.insert(key, m);
                    lemma_path(db);
                    assert forall|t: Seq<char>| #[trigger]
                        meta_for(w, db, t, next) == meta_for(w, db, t, metas) by {
                        if schema::table_key(db, t) == key {
                            lemma_key_splits(db, t, db, table);
                        }
                    }
                    assert forall|j: int| 0 <= j < known.push(m).len() implies reads_listed(
                        w,
                        db,
                        tables,
                        next,
                        #[trigger] known.push(m)[j],
                    ) by {
                        if j < known.len() {
                            assert(reads_listed(w, db, tables, metas, known[j]));
                        }
                    }
                    lemma_gather_lists(w, db, tables, at + 1, known.push(m), next, k);
                    let found = poll::gather(w, db, tables, at, known, metas).0[k];
                    assert(reads_listed(w, db, tables, next, found));
                    assert(meta_for(w, db, found.table, next) == meta_for(
                        w,
                        db,
                        found.table,
                        metas,
                    ));
                },
                None => {
                    lemma_gather_lists(w, db, tables, at + 1, known, metas, k);
                },
            }
        }
    }
}

/// Behind the marks of a poll no table has anything left.
proof fn lemma_nothing_waits(
    w: World,
    dbs: Seq<Seq<char>>,
    f: Found,
    d: int,
    m: MetaView,
)
    requires
        poll::honest(w),
        steady(w),
        forall|k: int| 0 <= k < dbs.len() ==> is_message_path(#[trigger] dbs[k]),
        metas_fit(f.metas),
        f.msgs.len() == 0,
        0 <= d < dbs.len(),
        reads_listed(w, dbs[d], cell::texts((w.tables)(dbs[d])), f.metas, m),
    ensures
        waiting(w, dbs[d], m, poll::from_dbs(w, dbs, 0, f).marks).len() == 0,
{
    let db = dbs[d];
    let key = poll::mark_key(db, m.table);
    let g = poll::from_dbs(w, dbs, 0, f);
    let low = poll::mark_of(f.marks, key);
    let high = poll::mark_of(g.marks, key);
    poll::law_marks_are_maxima(w, dbs, 0, f, key);
    poll::law_marks_rise(w, dbs, 0, f);
    assert(low <= high);
    let left = waiting(w, db, m, g.marks);
    if left.len() > 0 {
        assert(messages::raws_of((w.rows)(db, m.select_sql, high)->0)[0].local_id > high);
        let first = (w.rows)(db, m.select_sql, low);
        assert(first is Some && messages::raws_of(first->0).contains(left[0]));
        let i = choose|i: int|
            0 <= i < messages::raws_of(first->0).len() && messages::raws_of(first->0)[i] == left[0];
        assert(waiting(w, db, m, f.marks)[i] == left[0]);
        law_no_message_lost(w, dbs, f, d, m.table, i);
        let j = choose|j: int|
            0 <= j < g.msgs.len() && (#[trigger] g.msgs[j]) == messages::placed(
                left[0],
                g.msgs[j].chat,
                key,
            );
        assert(g.msgs[j].table_key == key);
        assert(g.msgs[j].local_id <= g.marks[key]);
        assert(false);
    }
}

proof fn lemma_tables_rest(
    w: World,
    db: Seq<char>,
    f: Found,
    known: Seq<MetaView>,
    at: int,
)
    requires
        0 <= at,
        forall|k: int|
            0 <= k < known.len() ==> waiting(w, db, #[trigger] known[k], f.marks).len() == 0,
    ensures
        poll::from_tables(w, db, f, known, at) == f,
    decreases known.len() - at,
{
    if at < known.len() {
        assert(waiting(w, db, known[at], f.marks).len() == 0);
        assert(poll::from_table(w, db, f, known[at]) == f);
        lemma_tables_rest(w, db, f, known, at + 1);
    }
}

proof fn lemma_dbs_rest(w: World, dbs: Seq<Seq<char>>, f: Found, at: int, again: Found)
    requires
        poll::honest(w),
        steady(w),
        forall|k: int| 0 <= k < dbs.len() ==> is_message_path(#[trigger] dbs[k]),
        metas_fit(f.metas),
        f.msgs.len() == 0,
        0 <= at,
        again.marks == poll::from_dbs(w, dbs, 0, f).marks,
        metas_fit(again.metas),
        forall|db: Seq<char>, table: Seq<char>|
            is_message_path(db) ==> #[trigger] meta_for(w, db, table, again.metas) == meta_for(
                w,
                db,
                table,
                f.metas,
            ),
    ensures
        poll::from_dbs(w, dbs, at, again).msgs == again.msgs,
        poll::from_dbs(w, dbs, at, again).marks == again.marks,
    decreases dbs.len() - at,
{
    if at < dbs.len() {
        let db = dbs[at];
        assert(is_message_path(dbs[at]));
        let tables = cell::texts((w.tables)(db));
        let g = poll::gather(w, db, tables, 0, Seq::empty(), again.metas);
        let start = Found { metas: g.1, ..again };
        assert forall|k: int| 0 <= k < g.0.len() implies waiting(
            w,
            db,
            #[trigger] g.0[k],
            start.marks,
        ).len() == 0 by {
            lemma_gather_lists(w, db, tables, 0, Seq::empty(), again.metas, k);
            assert(meta_for(w, db, g.0[k].table, again.metas) == meta_for(
                w,
                db,
                g.0[k].table,
                f.metas,
            ));
            lemma_nothing_waits(w, dbs, f, at, g.0[k]);
        }
        lemma_tables_rest(w, db, start, g.0, 0);
        assert(poll::from_db(w, db, again) == start);
        assert forall|other: Seq<char>, table: Seq<char>| is_message_path(other) implies #[trigger]
            meta_for(w, other, table, start.metas) == meta_for(w, other, table, f.metas) by {
            lemma_gather_fits(
                w,
                db,
                tables,
                0,
                Seq::empty(),
                again.metas,
                other,
                table,
            );
            assert(meta_for(w, other, table, again.metas) == meta_for(w, other, table, f.metas));
        }
        lemma_gather_fits(w, db, tables, 0, Seq::empty(), again.metas, db, Seq::empty());
        lemma_dbs_rest(w, dbs, f, at + 1, start);
    }
}

/// A second poll of databases in which nothing has changed finds nothing and
/// leaves all marks as they are.
pub proof fn law_unchanged_gives_nothing(w: World, dbs: Seq<Seq<char>>, f: Found)
    requires
        poll::honest(w),
        steady(w),
        forall|k: int| 0 <= k < dbs.len() ==> is_message_path(#[trigger] dbs[k]),
        metas_fit(f.metas),
        f.msgs.len() == 0,
    ensures
        ({
            let first = poll::from_dbs(w, dbs, 0, f);
            let second = poll::from_dbs(
                w,
                dbs,
                0,
                Found {
                    msgs: Seq::empty(),
                    marks: first.marks,
                    metas: db::completed(f.metas, first.metas),
                    names: Map::empty(),
                },
            );
            &&& second.msgs == Seq::<RawView>::empty()
            &&& second.marks == first.marks
        }),
{
    let first = poll::from_dbs(w, dbs, 0, f);
    let metas = db::completed(f.metas, first.metas);
    law_metas_stay_fit(w, dbs, 0, f);
    law_cache_stays_fit(f.metas, first.metas);
    assert forall|db: Seq<char>, table: Seq<char>| is_message_path(db) implies #[trigger] meta_for(
        w,
        db,
        table,
        metas,
    ) == meta_for(w, db, table, f.metas) by {
        lemma_dbs_keep_reading(w, dbs, 0, f, db, table);
    }
    lemma_dbs_rest(
        w,
        dbs,
        f,
        0,
        Found { msgs: Seq::empty(), marks: first.marks, metas, names: Map::empty() },
    );
}

/// No two tables of message databases share a key.
proof fn lemma_apart(w: World, dbs: Seq<Seq<char>>)
    requires
        forall|k: int| 0 <= k < dbs.len() ==> is_message_path(#[trigger] dbs[k]),
    ensures
        marking::apart(w, dbs),
{
    assert forall|i: int, j: int, t: Seq<char>, u: Seq<char>|
        #![trigger marking::lists(w, dbs[i], t), marking::lists(w, dbs[j], u)]
        0 <= i < dbs.len() && 0 <= j < dbs.len() && marking::lists(w, dbs[i], t)
            && marking::lists(w, dbs[j], u) && (poll::mark_key(dbs[i], t) == poll::mark_key(
            dbs[j],
            u,
        ) || schema::table_key(dbs[i], t) == schema::table_key(dbs[j], u)) implies dbs[i] == dbs[j]
        && t == u by {
        assert(is_message_path(dbs[i]));
        assert(is_message_path(dbs[j]));
        if poll::mark_key(dbs[i], t) == poll::mark_key(dbs[j], u) {
            law_marks_do_not_mix(dbs[i], t, dbs[j], u);
        } else {
            lemma_path(dbs[i]);
            lemma_path(dbs[j]);
            lemma_key_splits(dbs[i], t, dbs[j], u);
        }
    }
}

/// Marking message databases as read sets the mark of every table that can be
/// read and is not empty to its greatest id.
pub proof fn law_marking_marks_all(w: World, dbs: Seq<Seq<char>>, d: int, table: Seq<char>)
    requires
        forall|k: int| 0 <= k < dbs.len() ==> is_message_path(#[trigger] dbs[k]),
        0 <= d < dbs.len(),
        marking::lists(w, dbs[d], table),
        marking::greatest_id(w, dbs[d], table) is Some,
    ensures
        marking::mark_dbs(w, dbs, 0, Map::empty()).dom().contains(poll::mark_key(dbs[d], table)),
        marking::mark_dbs(w, dbs, 0, Map::empty())[poll::mark_key(dbs[d], table)]
            == marking::greatest_id(w, dbs[d], table)->0,
{
    lemma_apart(w, dbs);
    marking::lemma_mark_dbs(w, dbs, 0, Map::empty(), d, table);
}

/// After everything is marked as read, polls give only what came later: however
/// the databases have changed since, whatever a poll finds in a table lies
/// behind the greatest id that the table had when it was marked.
pub proof fn law_only_later_messages(
    before: World,
    dbs: Seq<Seq<char>>,
    after: World,
    polled: Seq<Seq<char>>,
    metas: Map<Seq<char>, MetaView>,
    d: int,
    table: Seq<char>,
    i: int,
)
    requires
        poll::honest(after),
        forall|k: int| 0 <= k < dbs.len() ==> is_message_path(#[trigger] dbs[k]),
        0 <= d < dbs.len(),
        marking::lists(before, dbs[d], table),
        marking::greatest_id(before, dbs[d], table) is Some,
        ({
            let start = Found {
                msgs: Seq::empty(),
                marks: marking::mark_dbs(before, dbs, 0, Map::empty()),
                metas,
                names: Map::empty(),
            };
            let found = poll::from_dbs(after, polled, 0, start).msgs;
            0 <= i < found.len() && found[i].table_key == poll::mark_key(dbs[d], table)
        }),
    ensures
        ({
            let start = Found {
                msgs: Seq::empty(),
                marks: marking::mark_dbs(before, dbs, 0, Map::empty()),
                metas,
                names: Map::empty(),
            };
            poll::from_dbs(after, polled, 0, start).msgs[i].local_id > marking::greatest_id(
                before,
                dbs[d],
                table,
            )->0
        }),
{
    let start = Found {
        msgs: Seq::empty(),
        marks: marking::mark_dbs(before, dbs, 0, Map::empty()),
        metas,
        names: Map::empty(),
    };
    law_marking_marks_all(before, dbs, d, table);
    poll::law_marks_rise(after, polled, 0, start);
}

// ---------------------------------------------------------------------
// Calls of the manager
// ---------------------------------------------------------------------

/// The messages behind an id, in order.
pub open spec fn behind(stored: Seq<RawView>, after: i64) -> Seq<RawView>
    decreases stored.len(),
{
    if stored.len() == 0 {
        Seq::empty()
    } else if stored.last().local_id > after {
        behind(stored.drop_last(), after).push(stored.last())
    } else {
        behind(stored.drop_last(), after)
    }
}

proof fn lemma_behind(stored: Seq<RawView>, after: i64, m: RawView)
    ensures
        behind(stored, after).contains(m) <==> stored.contains(m) && m.local_id > after,
    decreases stored.len(),
{
    if stored.len() > 0 {
        let rest = stored.drop_last();
        let k = behind(rest, after);
        lemma_behind(rest, after, m);
        assert(stored =~= rest.push(stored.last()));
        lemma_push_contains(rest, stored.last(), m);
        lemma_push_contains(k, stored.last(), m);
    }
}

proof fn lemma_push_contains(s: Seq<RawView>, last: RawView, m: RawView)
    ensures
        s.push(last).contains(m) <==> s.contains(m) || m == last,
{
    let p = s.push(last);
    assert(p[s.len() as int] == last);
    if s.contains(m) {
        let i = choose|i: int| 0 <= i < s.len() && s[i] == m;
        assert(p[i] == m);
    }
    if p.contains(m) && m != last {
        let i = choose|i: int| 0 <= i < p.len() && p[i] == m;
        assert(s[i] == m);
    }
}

/// Whether all queries succeed and answer for some stored messages: a query for
/// rows gives those behind the id asked for, and the greatest id of a table is
/// no less than that of any message in it.
pub open spec fn answers_for(
    w: World,
    stored: spec_fn(Seq<char>, Seq<char>) -> Seq<RawView>,
) -> bool {
    &&& forall|db: Seq<char>, sql: Seq<char>, after: i64| #[trigger]
        (w.rows)(db, sql, after) is Some && messages::raws_of((w.rows)(db, sql, after)->0)
            == behind(stored(db, sql), after)
    &&& forall|db: Seq<char>, table: Seq<char>, m: RawView|
        #![trigger stored(db, (poll::learned(w, db, table)->0).select_sql).contains(m)]
        poll::learned(w, db, table) is Some && stored(
            db,
            (poll::learned(w, db, table)->0).select_sql,
        ).contains(m) ==> marking::greatest_id(w, db, table) is Some && m.local_id
            <= marking::greatest_id(w, db, table)->0
}

/// Databases whose queries all succeed and answer for what is stored give only
/// rows behind the id asked for, give behind a lesser id what they give behind a
/// greater one, and none beyond the greatest id of a table.
pub proof fn law_stored_messages_are_told(
    w: World,
    stored: spec_fn(Seq<char>, Seq<char>) -> Seq<RawView>,
)
    requires
        answers_for(w, stored),
    ensures
        poll::honest(w),
        steady(w),
        marking::in_accord(w),
{
    assert forall|db: Seq<char>, sql: Seq<char>, after: i64, i: int|
        #![trigger messages::raws_of((w.rows)(db, sql, after)->0)[i]]
        (w.rows)(db, sql, after) is Some && 0 <= i < messages::raws_of(
            (w.rows)(db, sql, after)->0,
        ).len() implies messages::raws_of((w.rows)(db, sql, after)->0)[i].local_id > after by {
        let rows = messages::raws_of((w.rows)(db, sql, after)->0);
        assert(rows.contains(rows[i]));
        lemma_behind(stored(db, sql), after, rows[i]);
    }
    assert forall|db: Seq<char>, sql: Seq<char>, low: i64, high: i64, i: int|
        #![trigger messages::raws_of((w.rows)(db, sql, high)->0)[i], (w.rows)(db, sql, low)]
        low <= high && (w.rows)(db, sql, high) is Some && 0 <= i < messages::raws_of(
            (w.rows)(db, sql, high)->0,
        ).len() implies (w.rows)(db, sql, low) is Some && messages::raws_of(
        (w.rows)(db, sql, low)->0,
    ).contains(messages::raws_of((w.rows)(db, sql, high)->0)[i]) by {
        let rows = messages::raws_of((w.rows)(db, sql, high)->0);
        assert(rows.contains(rows[i]));
        lemma_behind(stored(db, sql), high, rows[i]);
        lemma_behind(stored(db, sql), low, rows[i]);
    }
    assert forall|db: Seq<char>, t: Seq<char>, after: i64, k: int|
        #![trigger messages::raws_of((w.rows)(db, (poll::learned(w, db, t)->0).select_sql, after)->0)[k]]
        poll::learned(w, db, t) is Some && (w.rows)(
            db,
            (poll::learned(w, db, t)->0).select_sql,
            after,
        ) is Some && 0 <= k < messages::raws_of(
            (w.rows)(db, (poll::learned(w, db, t)->0).select_sql, after)->0,
        ).len() implies {
        let id = messages::raws_of(
            (w.rows)(db, (poll::learned(w, db, t)->0).select_sql, after)->0,
        )[k].local_id;
        &&& id > after
        &&& marking::greatest_id(w, db, t) is Some
        &&& id <= marking::greatest_id(w, db, t)->0
    } by {
        let sql = (poll::learned(w, db, t)->0).select_sql;
        let rows = messages::raws_of((w.rows)(db, sql, after)->0);
        assert(rows.contains(rows[k]));
        lemma_behind(stored(db, sql), after, rows[k]);
        assert(stored(db, sql).contains(rows[k]));
    }
}

/// Where a manager has taken over what a poll found, and the databases have not
/// changed since and answer every query, the next poll finds nothing, and the
/// marks stay as they were after the first.
pub proof fn law_next_call_finds_nothing(
    w: World,
    stored: spec_fn(Seq<char>, Seq<char>) -> Seq<RawView>,
    dbs: Seq<Seq<char>>,
    marks: Map<Seq<char>, i64>,
    cache: Map<Seq<char>, MetaView>,
)
    requires
        answers_for(w, stored),
        forall|k: int| 0 <= k < dbs.len() ==> is_message_path(#[trigger] dbs[k]),
        metas_fit(cache),
    ensures
        ({
            let first = db::polled(w, dbs, marks, cache);
            let kept = db::marks_kept(marks, first);
            let second = db::polled(w, dbs, kept, db::completed(cache, first.metas));
            &&& second.msgs == Seq::<RawView>::empty()
            &&& db::marks_kept(kept, second) == kept
            &&& metas_fit(db::completed(db::completed(cache, first.metas), second.metas))
        }),
{
    let start = Found { msgs: Seq::empty(), marks, metas: cache, names: Map::empty() };
    let first = db::polled(w, dbs, marks, cache);
    law_stored_messages_are_told(w, stored);
    law_unchanged_gives_nothing(w, dbs, start);
    if first.msgs.len() == 0 {
        poll::law_nothing_found_nothing_marked(w, dbs, 0, start);
    }
    let more = db::completed(cache, first.metas);
    law_metas_stay_fit(w, dbs, 0, start);
    law_cache_stays_fit(cache, first.metas);
    let again = Found {
        msgs: Seq::empty(),
        marks: db::marks_kept(marks, first),
        metas: more,
        names: Map::empty(),
    };
    law_metas_stay_fit(w, dbs, 0, again);
    law_cache_stays_fit(more, poll::from_dbs(w, dbs, 0, again).metas);
}

/// What a new manager knows of tables, which is nothing, stands under the
/// tables' own keys and is what their columns tell.
pub proof fn law_empty_cache_fits(w: World, dbs: Seq<Seq<char>>)
    ensures
        metas_fit(Map::empty()),
        marking::agrees(w, dbs, Map::empty()),
{
}

/// What a manager knows of tables stays what their columns tell, as polls add to
/// it.
pub proof fn law_cache_stays_right(
    w: World,
    dbs: Seq<Seq<char>>,
    marks: Map<Seq<char>, i64>,
    cache: Map<Seq<char>, MetaView>,
)
    requires
        forall|k: int| 0 <= k < dbs.len() ==> is_message_path(#[trigger] dbs[k]),
        marking::agrees(w, dbs, cache),
    ensures
        marking::agrees(
            w,
            dbs,
            db::completed(cache, db::polled(w, dbs, marks, cache).metas),
        ),
{
    lemma_apart(w, dbs);
    lemma_dbs_agree(
        w,
        dbs,
        0,
        Found { msgs: Seq::empty(), marks, metas: cache, names: Map::empty() },
    );
}

proof fn lemma_dbs_agree(w: World, dbs: Seq<Seq<char>>, at: int, f: Found)
    requires
        marking::apart(w, dbs),
        marking::agrees(w, dbs, f.metas),
        0 <= at,
    ensures
        marking::agrees(w, dbs, poll::from_dbs(w, dbs, at, f).metas),
    decreases dbs.len() - at,
{
    if at < dbs.len() {
        let tables = cell::texts((w.tables)(dbs[at]));
        let g = poll::gather(w, dbs[at], tables, 0, Seq::empty(), f.metas);
        marking::lemma_gather(w, dbs, at, 0, Seq::empty(), f.metas);
        lemma_tables_keep_metas(w, dbs[at], Found { metas: g.1, ..f }, g.0, 0);
        lemma_dbs_agree(w, dbs, at + 1, poll::from_db(w, dbs[at], f));
    }
}

/// After everything was marked as read, a manager's polls give only messages
/// behind the greatest id that their table had then, and so behind all that were
/// stored in it, however the databases have changed since; where they have not
/// changed, polls give nothing.
pub proof fn law_marking_settles(
    before: World,
    stored: spec_fn(Seq<char>, Seq<char>) -> Seq<RawView>,
    dbs: Seq<Seq<char>>,
    after: World,
    later: Seq<Seq<char>>,
    cache: Map<Seq<char>, MetaView>,
)
    requires
        answers_for(before, stored),
        poll::honest(after),
        forall|k: int| 0 <= k < dbs.len() ==> is_message_path(#[trigger] dbs[k]),
        marking::agrees(before, dbs, cache),
    ensures
        ({
            let marks = marking::mark_dbs(before, dbs, 0, Map::empty());
            let found = db::polled(after, later, marks, cache).msgs;
            &&& db::polled(before, dbs, marks, cache).msgs == Seq::<RawView>::empty()
            &&& forall|i: int, d: int, table: Seq<char>|
                #![trigger found[i], marking::lists(before, dbs[d], table)]
                0 <= i < found.len() && 0 <= d < dbs.len() && marking::lists(before, dbs[d], table)
                    && found[i].table_key == poll::mark_key(dbs[d], table) ==> {
                    &&& marking::greatest_id(before, dbs[d], table) matches Some(n)
                        ==> found[i].local_id > n
                    &&& forall|m: RawView|
                        poll::learned(before, dbs[d], table) is Some && #[trigger] stored(
                            dbs[d],
                            (poll::learned(before, dbs[d], table)->0).select_sql,
                        ).contains(m) ==> found[i].local_id > m.local_id
                }
        }),
{
    let marks = marking::mark_dbs(before, dbs, 0, Map::empty());
    let found = db::polled(after, later, marks, cache).msgs;
    law_stored_messages_are_told(before, stored);
    lemma_apart(before, dbs);
    marking::law_marked_is_read(before, dbs, cache);
    assert forall|i: int, d: int, table: Seq<char>|
        #![trigger found[i], marking::lists(before, dbs[d], table)]
        0 <= i < found.len() && 0 <= d < dbs.len() && marking::lists(before, dbs[d], table)
            && found[i].table_key == poll::mark_key(dbs[d], table) implies {
        &&& marking::greatest_id(before, dbs[d], table) matches Some(n) ==> found[i].local_id > n
        &&& forall|m: RawView|
            poll::learned(before, dbs[d], table) is Some && #[trigger] stored(
                dbs[d],
                (poll::learned(before, dbs[d], table)->0).select_sql,
            ).contains(m) ==> found[i].local_id > m.local_id
    } by {
        if marking::greatest_id(before, dbs[d], table) is Some {
            law_only_later_messages(before, dbs, after, later, cache, d, table, i);
        }
    }
}

/// The message databases among some files have the paths that these laws ask
/// for.
pub proof fn law_found_databases_have_paths(names: Seq<Seq<char>>, k: int)
    requires
        0 <= k < keys::message_paths(names).len(),
    ensures
        is_message_path(keys::message_paths(names)[k]),
    decreases names.len(),
{
    if names.len() > 0 {
        let before = keys::message_paths(names.drop_last());
        if k < before.len() {
            law_found_databases_have_paths(names.drop_last(), k);
        } else {
            assert(keys::names_message_db(names.last()));
        }
    }
}

} // verus!
