//! Marking everything in the message databases as read.
//!
//! Like a poll, a marking asks one question at a time and is told the answers.
use vstd::prelude::*;
use crate::cell;
use crate::cell::CellView;
use crate::messages;
use crate::poll;
use crate::poll::{Answer, Found, Question, QuestionView, World};
use crate::schema;
use crate::schema::MetaView;
use crate::table::Table;
use crate::text;

verus! {

/// The query for the greatest id of a table.
pub open spec fn greatest_sql(id_col: Seq<char>, table: Seq<char>) -> Seq<char> {
    "SELECT MAX("@ + id_col + ") FROM ["@ + table + "]"@
}

/// The greatest id of a table, where it can be read and is not empty.
pub open spec fn greatest_id(w: World, db: Seq<char>, table: Seq<char>) -> Option<i64> {
    match poll::learned(w, db, table) {
        Some(m) => match (w.greatest)(db, greatest_sql(m.id_col, table)) {
            Some(CellView::Integer(n)) => Some(n),
            _ => None,
        },
        None => None,
    }
}

/// The marks with the greatest ids of the tables from a place on.
pub open spec fn mark_tables(
    w: World,
    db: Seq<char>,
    tables: Seq<Seq<char>>,
    at: int,
    marks: Map<Seq<char>, i64>,
) -> Map<Seq<char>, i64>
    decreases tables.len() - at,
{
    if at >= tables.len() {
        marks
    } else {
        let next = match greatest_id(w, db, tables[at]) {
            Some(n) => marks.insert(poll::mark_key(db, tables[at]), n),
            None => marks,
        };
        mark_tables(w, db, tables, at + 1, next)
    }
}

/// The marks with the greatest ids of all tables of the databases from a place
/// on.
pub open spec fn mark_dbs(
    w: World,
    dbs: Seq<Seq<char>>,
    at: int,
    marks: Map<Seq<char>, i64>,
) -> Map<Seq<char>, i64>
    decreases dbs.len() - at,
{
    if at >= dbs.len() {
        marks
    } else {
        let tables = cell::texts((w.tables)(dbs[at]));
        mark_dbs(w, dbs, at + 1, mark_tables(w, dbs[at], tables, 0, marks))
    }
}

/// What a marking waits for.
#[derive(Debug, Clone, Copy, PartialEq, Eq, Structural)]
pub enum MarkStage {
    /// The tables of the current database.
    Tables,
    /// The columns of the current table.
    Columns,
    /// The greatest id of the current table.
    Greatest,
}

/// A marking under way.
#[derive(Debug, Clone)]
pub struct Marking {
    /// The databases, and which of them is being asked.
    pub dbs: Vec<String>,
    pub db: usize,
    pub stage: MarkStage,
    /// The tables of the current database, and the current one.
    pub tables: Vec<String>,
    pub at: usize,
    /// The column that holds the current table's id.
    pub id_col: String,
    pub marks: Table<i64>,
}

impl Marking {
    /// The name of the current database.
    pub open spec fn db_name(&self) -> Seq<char> {
        text::views(self.dbs@)[self.db as int]
    }

    /// The name of the current table.
    pub open spec fn table(&self) -> Seq<char> {
        text::views(self.tables@)[self.at as int]
    }

    /// Whether there is a question to ask.
    pub open spec fn waits(&self) -> bool {
        &&& self.marks.wf()
        &&& self.db <= self.dbs@.len()
        &&& self.stage != MarkStage::Tables ==> self.db < self.dbs@.len() && self.at
            < self.tables@.len()
    }

    /// Whether the marking is over.
    pub open spec fn over(&self) -> bool {
        self.stage == MarkStage::Tables && self.db == self.dbs@.len()
    }

    /// The question to ask next.
    pub open spec fn next(&self) -> QuestionView {
        let db = self.db_name();
        match self.stage {
            MarkStage::Tables => if self.db < self.dbs@.len() {
                QuestionView::Tables { db }
            } else {
                QuestionView::Nothing
            },
            MarkStage::Columns => QuestionView::Columns {
                db,
                table: self.table(),
                sql: "PRAGMA table_info("@ + self.table() + ")"@,
            },
            MarkStage::Greatest => QuestionView::Greatest {
                db,
                sql: greatest_sql(self.id_col@, self.table()),
            },
        }
    }

    /// The marks once all questions are answered.
    pub open spec fn outcome(&self, w: World) -> Map<Seq<char>, i64> {
        let db = self.db_name();
        let dbs = text::views(self.dbs@);
        let tables = text::views(self.tables@);
        match self.stage {
            MarkStage::Tables => mark_dbs(w, dbs, self.db as int, self.marks@),
            MarkStage::Columns => mark_dbs(
                w,
                dbs,
                self.db + 1,
                mark_tables(w, db, tables, self.at as int, self.marks@),
            ),
            MarkStage::Greatest => mark_dbs(
                w,
                dbs,
                self.db + 1,
                mark_tables(
                    w,
                    db,
                    tables,
                    self.at + 1,
                    match (w.greatest)(db, greatest_sql(self.id_col@, self.table())) {
                        Some(CellView::Integer(n)) => self.marks@.insert(
                            poll::mark_key(db, self.table()),
                            n,
                        ),
                        _ => self.marks@,
                    },
                ),
            ),
        }
    }

    /// What is left to do, the weightiest part first.
    pub open spec fn work_left(&self) -> (int, int, int, int) {
        (
            self.dbs@.len() - self.db,
            if self.stage == MarkStage::Tables {
                1
            } else {
                0
            },
            if self.stage == MarkStage::Tables {
                0
            } else {
                self.tables@.len() - self.at
            },
            if self.stage == MarkStage::Columns {
                1
            } else {
                0
            },
        )
    }

    /// Starts a marking of some databases.
    pub fn start(dbs: Vec<String>) -> (r: Marking)
        ensures
            r.waits(),
            forall|w: World| #[trigger]
                r.outcome(w) == mark_dbs(w, text::views(dbs@), 0, Map::empty()),
    {
        Marking {
            dbs,
            db: 0,
            stage: MarkStage::Tables,
            tables: Vec::new(),
            at: 0,
            id_col: String::new(),
            marks: Table::new(),
        }
    }

    /// The question to ask next.
    pub fn question(&self) -> (r: Question)
        requires
            self.waits(),
        ensures
            r@ == self.next(),
            r is Nothing <==> self.over(),
    {
        if self.db >= self.dbs.len() {
            return Question::Nothing;
        }
        let db = self.dbs[self.db].clone();
        match self.stage {
            MarkStage::Tables => Question::Tables { db },
            MarkStage::Columns => {
                let table = self.tables[self.at].clone();
                let sql = schema::columns_sql(table.as_str());
                Question::Columns { db, table, sql }
            },
            MarkStage::Greatest => Question::Greatest {
                db,
                sql: schema::max_id_sql(self.id_col.as_str(), self.tables[self.at].as_str()),
            },
        }
    }

    /// Leaves a database whose tables are all done.
    fn settle(&mut self)
        requires
            old(self).marks.wf(),
            old(self).stage == MarkStage::Columns,
            old(self).db < old(self).dbs@.len(),
            old(self).at <= old(self).tables@.len(),
        ensures
            final(self).waits(),
            final(self).dbs == old(self).dbs,
            forall|w: World| #[trigger] final(self).outcome(w) == old(self).outcome(w),
            !poll::less(old(self).work_left(), final(self).work_left()),
    {
        if self.at == self.tables.len() {
            assert(self.db < self.dbs.len());
            self.stage = MarkStage::Tables;
            self.db = self.db + 1;
        }
    }

    /// Takes an answer to the question asked and goes on to the next question.
    /// An answer of the wrong kind changes nothing.
    pub fn answer(&mut self, a: Answer)
        requires
            old(self).waits(),
        ensures
            final(self).waits(),
            final(self).dbs == old(self).dbs,
            !poll::suits(old(self).next(), a) ==> *final(self) == *old(self),
            poll::suits(old(self).next(), a) ==> poll::less(
                final(self).work_left(),
                old(self).work_left(),
            ),
            forall|w: World|
                poll::answers(w, old(self).next(), a) ==> #[trigger] final(self).outcome(w)
                    == old(self).outcome(w),
    {
        if self.db >= self.dbs.len() {
            return;
        }
        match (self.stage, a) {
            (MarkStage::Tables, Answer::Tables(cells)) => {
                self.tables = cell::texts_in(&cells);
                self.at = 0;
                self.stage = MarkStage::Columns;
                self.settle();
            },
            (MarkStage::Columns, Answer::Columns(cells)) => {
                let meta = match &cells {
                    Some(v) => {
                        let columns = cell::texts_in(v);
                        schema::build_single_table_meta(self.tables[self.at].as_str(), &columns)
                    },
                    None => None,
                };
                match meta {
                    Some(m) => {
                        self.id_col = m.id_col;
                        self.stage = MarkStage::Greatest;
                    },
                    None => {
                        assert(self.at < self.tables.len());
                        self.at = self.at + 1;
                        self.settle();
                    },
                }
            },
            (MarkStage::Greatest, Answer::Greatest(c)) => {
                let n = match &c {
                    Some(c) => c.get_int(),
                    None => None,
                };
                if let Some(n) = n {
                    let short = schema::short_name(self.dbs[self.db].as_str());
                    let key = schema::key_of(short.as_str(), self.tables[self.at].as_str());
                    self.marks.insert(key, n);
                }
                assert(self.at < self.tables.len());
                self.at = self.at + 1;
                self.stage = MarkStage::Columns;
                self.settle();
            },
            _ => {},
        }
    }
}

// ---------------------------------------------------------------------
// Laws
// ---------------------------------------------------------------------

/// Whether a database lists a table.
pub open spec fn lists(w: World, db: Seq<char>, table: Seq<char>) -> bool {
    cell::texts((w.tables)(db)).contains(table)
}

/// Whether no two tables of some databases share a key.
pub open spec fn apart(w: World, dbs: Seq<Seq<char>>) -> bool {
    forall|i: int, j: int, t: Seq<char>, u: Seq<char>|
        #![trigger lists(w, dbs[i], t), lists(w, dbs[j], u)]
        0 <= i < dbs.len() && 0 <= j < dbs.len() && lists(w, dbs[i], t) && lists(w, dbs[j], u) && (
        poll::mark_key(dbs[i], t) == poll::mark_key(dbs[j], u) || schema::table_key(dbs[i], t)
            == schema::table_key(dbs[j], u)) ==> dbs[i] == dbs[j] && t == u
}

/// Whether what is known of tables is what their columns tell.
pub open spec fn agrees(w: World, dbs: Seq<Seq<char>>, metas: Map<Seq<char>, MetaView>) -> bool {
    forall|i: int, t: Seq<char>|
        #![trigger lists(w, dbs[i], t)]
        0 <= i < dbs.len() && lists(w, dbs[i], t) && metas.dom().contains(
            schema::table_key(dbs[i], t),
        ) ==> poll::learned(w, dbs[i], t) == Some(metas[schema::table_key(dbs[i], t)])
}

/// Whether databases answer in accord: a query for rows behind an id gives
/// rows behind it, and none beyond the greatest id of the table.
pub open spec fn in_accord(w: World) -> bool {
    forall|db: Seq<char>, t: Seq<char>, after: i64, k: int|
        #![trigger messages::raws_of((w.rows)(db, (poll::learned(w, db, t)->0).select_sql, after)->0)[k]]
        poll::learned(w, db, t) is Some && (w.rows)(
            db,
            (poll::learned(w, db, t)->0).select_sql,
            after,
        ) is Some && 0 <= k < messages::raws_of(
            (w.rows)(db, (poll::learned(w, db, t)->0).select_sql, after)->0,
        ).len() ==> {
            let id = messages::raws_of(
                (w.rows)(db, (poll::learned(w, db, t)->0).select_sql, after)->0,
            )[k].local_id;
            &&& id > after
            &&& greatest_id(w, db, t) is Some
            &&& id <= greatest_id(w, db, t)->0
        }
}

/// Whether a table's mark is its greatest id.
pub open spec fn marked(
    w: World,
    marks: Map<Seq<char>, i64>,
    db: Seq<char>,
    t: Seq<char>,
) -> bool {
    greatest_id(w, db, t) is Some ==> marks.dom().contains(poll::mark_key(db, t))
        && marks[poll::mark_key(db, t)] == greatest_id(w, db, t)->0
}

proof fn lemma_mark_tables(
    w: World,
    dbs: Seq<Seq<char>>,
    j: int,
    at: int,
    marks: Map<Seq<char>, i64>,
    i: int,
    t: Seq<char>,
)
    requires
        apart(w, dbs),
        0 <= j < dbs.len(),
        0 <= i < dbs.len(),
        0 <= at,
        lists(w, dbs[i], t),
        marked(w, marks, dbs[i], t) || (i == j && exists|a: int|
            at <= a < cell::texts((w.tables)(dbs[j])).len() && #[trigger] cell::texts(
                (w.tables)(dbs[j]),
            )[a] == t),
    ensures
        marked(
            w,
            mark_tables(w, dbs[j], cell::texts((w.tables)(dbs[j])), at, marks),
            dbs[i],
            t,
        ),
    decreases cell::texts((w.tables)(dbs[j])).len() - at,
{
    let tables = cell::texts((w.tables)(dbs[j]));
    if at < tables.len() {
        let u = tables[at];
        assert(lists(w, dbs[j], u));
        let next = match greatest_id(w, dbs[j], u) {
            Some(n) => marks.insert(poll::mark_key(dbs[j], u), n),
            None => marks,
        };
        if marked(w, marks, dbs[i], t) {
            if poll::mark_key(dbs[j], u) == poll::mark_key(dbs[i], t) {
                assert(dbs[i] == dbs[j] && t == u);
            }
            assert(marked(w, next, dbs[i], t));
        } else {
            let a = choose|a: int| at <= a < tables.len() && #[trigger] tables[a] == t;
            if a == at {
                assert(marked(w, next, dbs[i], t));
            }
        }
        lemma_mark_tables(w, dbs, j, at + 1, next, i, t);
    }
}

pub proof fn lemma_mark_dbs(
    w: World,
    dbs: Seq<Seq<char>>,
    at: int,
    marks: Map<Seq<char>, i64>,
    i: int,
    t: Seq<char>,
)
    requires
        apart(w, dbs),
        0 <= i < dbs.len(),
        0 <= at,
        lists(w, dbs[i], t),
        marked(w, marks, dbs[i], t) || i >= at,
    ensures
        marked(w, mark_dbs(w, dbs, at, marks), dbs[i], t),
    decreases dbs.len() - at,
{
    if at < dbs.len() {
        let tables = cell::texts((w.tables)(dbs[at]));
        let next = mark_tables(w, dbs[at], tables, 0, marks);
        if marked(w, marks, dbs[i], t) || i == at {
            if i == at {
                let a = choose|a: int| 0 <= a < tables.len() && #[trigger] tables[a] == t;
                assert(tables[a] == t);
            }
            lemma_mark_tables(w, dbs, at, 0, marks, i, t);
        }
        lemma_mark_dbs(w, dbs, at + 1, next, i, t);
    }
}

/// What is gathered of a database's tables is what their columns tell.
pub proof fn lemma_gather(
    w: World,
    dbs: Seq<Seq<char>>,
    i: int,
    at: int,
    known: Seq<MetaView>,
    metas: Map<Seq<char>, MetaView>,
)
    requires
        apart(w, dbs),
        agrees(w, dbs, metas),
        0 <= i < dbs.len(),
        0 <= at,
        forall|k: int|
            0 <= k < known.len() ==> lists(w, dbs[i], (#[trigger] known[k]).table)
                && poll::learned(w, dbs[i], known[k].table) == Some(known[k]),
    ensures
        ({
            let g = poll::gather(w, dbs[i], cell::texts((w.tables)(dbs[i])), at, known, metas);
            &&& agrees(w, dbs, g.1)
            &&& forall|k: int|
                0 <= k < g.0.len() ==> lists(w, dbs[i], (#[trigger] g.0[k]).table)
                    && poll::learned(w, dbs[i], g.0[k].table) == Some(g.0[k])
        }),
    decreases cell::texts((w.tables)(dbs[i])).len() - at,
{
    let tables = cell::texts((w.tables)(dbs[i]));
    if at < tables.len() {
        let t = tables[at];
        assert(lists(w, dbs[i], t));
        let key = schema::table_key(dbs[i], t);
        if metas.dom().contains(key) {
            assert(poll::learned(w, dbs[i], t) == Some(metas[key]));
            assert(metas[key].table == t);
            lemma_gather(w, dbs, i, at + 1, known.push(metas[key]), metas);
        } else {
            match poll::learned(w, dbs[i], t) {
                Some(m) => {
                    assert(m.table == t);
                    assert forall|j: int, u: Seq<char>|
                        #![trigger lists(w, dbs[j], u)]
                        0 <= j < dbs.len() && lists(w, dbs[j], u) && metas.insert(
                            key,
                            m,
                        ).dom().contains(schema::table_key(dbs[j], u)) implies poll::learned(
                        w,
                        dbs[j],
                        u,
                    ) == Some(metas.insert(key, m)[schema::table_key(dbs[j], u)]) by {
                        if schema::table_key(dbs[j], u) == key {
                            assert(dbs[i] == dbs[j] && t == u);
                        }
                    }
                    lemma_gather(w, dbs, i, at + 1, known.push(m), metas.insert(key, m));
                },
                None => {
                    lemma_gather(w, dbs, i, at + 1, known, metas);
                },
            }
        }
    }
}

proof fn lemma_nothing_new(
    w: World,
    dbs: Seq<Seq<char>>,
    i: int,
    f: Found,
    known: Seq<MetaView>,
    at: int,
)
    requires
        in_accord(w),
        0 <= i < dbs.len(),
        0 <= at,
        forall|k: int|
            0 <= k < known.len() ==> lists(w, dbs[i], (#[trigger] known[k]).table)
                && poll::learned(w, dbs[i], known[k].table) == Some(known[k]),
        forall|t: Seq<char>| #[trigger] lists(w, dbs[i], t) ==> marked(w, f.marks, dbs[i], t),
    ensures
        poll::from_tables(w, dbs[i], f, known, at) == f,
    decreases known.len() - at,
{
    if at < known.len() {
        let m = known[at];
        let after = poll::mark_of(f.marks, poll::mark_key(dbs[i], m.table));
        assert(lists(w, dbs[i], m.table));
        match (w.rows)(dbs[i], m.select_sql, after) {
            Some(rows) => {
                let msgs = messages::raws_of(rows);
                if msgs.len() > 0 {
                    assert(messages::raws_of(
                        (w.rows)(
                            dbs[i],
                            (poll::learned(w, dbs[i], m.table)->0).select_sql,
                            after,
                        )->0,
                    )[0].local_id > after);
                    assert(false);
                }
            },
            None => {},
        }
        lemma_nothing_new(w, dbs, i, f, known, at + 1);
    }
}

proof fn lemma_poll_finds_nothing(w: World, dbs: Seq<Seq<char>>, at: int, f: Found)
    requires
        in_accord(w),
        apart(w, dbs),
        agrees(w, dbs, f.metas),
        0 <= at,
        forall|i: int, t: Seq<char>|
            0 <= i < dbs.len() && #[trigger] lists(w, dbs[i], t) ==> marked(
                w,
                f.marks,
                dbs[i],
                t,
            ),
    ensures
        poll::from_dbs(w, dbs, at, f).msgs == f.msgs,
        poll::from_dbs(w, dbs, at, f).marks == f.marks,
    decreases dbs.len() - at,
{
    if at < dbs.len() {
        let g = poll::gather(
            w,
            dbs[at],
            cell::texts((w.tables)(dbs[at])),
            0,
            Seq::empty(),
            f.metas,
        );
        let start = Found { metas: g.1, ..f };
        lemma_gather(w, dbs, at, 0, Seq::empty(), f.metas);
        lemma_nothing_new(w, dbs, at, start, g.0, 0);
        lemma_poll_finds_nothing(w, dbs, at + 1, start);
    }
}

/// Once everything is marked as read, a poll of the same databases finds
/// nothing, as long as no two of their tables share a key, the databases
/// answer in accord, and what is known of their tables is right.
pub proof fn law_marked_is_read(
    w: World,
    dbs: Seq<Seq<char>>,
    metas: Map<Seq<char>, MetaView>,
)
    requires
        in_accord(w),
        apart(w, dbs),
        agrees(w, dbs, metas),
    ensures
        poll::from_dbs(
            w,
            dbs,
            0,
            (Found {
                msgs: Seq::empty(),
                marks: mark_dbs(w, dbs, 0, Map::empty()),
                metas,
                names: Map::empty(),
            }),
        ).msgs == Seq::<messages::RawView>::empty(),
{
    let marks = mark_dbs(w, dbs, 0, Map::empty());
    assert forall|i: int, t: Seq<char>|
        0 <= i < dbs.len() && #[trigger] lists(w, dbs[i], t) implies marked(
        w,
        marks,
        dbs[i],
        t,
    ) by {
        lemma_mark_dbs(w, dbs, 0, Map::empty(), i, t);
    }
    lemma_poll_finds_nothing(
        w,
        dbs,
        0,
        Found { msgs: Seq::empty(), marks, metas, names: Map::empty() },
    );
}

/// The greatest id of a table is what the query for it gives where that is a
/// number; of a table that is empty or cannot be read there is none.
pub proof fn law_greatest_id_is_read(w: World, db: Seq<char>, table: Seq<char>, m: MetaView)
    requires
        poll::learned(w, db, table) == Some(m),
    ensures
        forall|n: i64|
            (w.greatest)(db, "SELECT MAX("@ + m.id_col + ") FROM ["@ + table + "]"@) == Some(
                CellView::Integer(n),
            ) ==> #[trigger] is_id(greatest_id(w, db, table), n),
        (w.greatest)(db, "SELECT MAX("@ + m.id_col + ") FROM ["@ + table + "]"@) == Some(
            CellView::Null,
        ) ==> greatest_id(w, db, table) is None,
        (w.greatest)(db, "SELECT MAX("@ + m.id_col + ") FROM ["@ + table + "]"@) is None
            ==> greatest_id(w, db, table) is None,
{
}

/// Whether an id was read, and which.
pub open spec fn is_id(read: Option<i64>, n: i64) -> bool {
    read == Some(n)
}

} // verus!
