//! The persisted relational store and document ingestion.
//!
//! Three relations are kept in a SQLite database: document names, lines
//! (position, normalized content, owning document) and context windows
//! (position within the line, lowercase anchor word, rotated content, owning
//! line and document). The store's mathematical value is a [`StoreModel`];
//! every trusted wrapper around a rusqlite call states how it moves that
//! model. Ingestion of one document is a single transaction: on any failure
//! the store is exactly as it was.

use vstd::prelude::*;

use crate::text::{normalize, tokens_of, views_of};
use crate::windows::line_windows;

verus! {

#[verifier::external_type_specification]
#[verifier::external_body]
pub struct ExConnection(rusqlite::Connection);

#[verifier::external_type_specification]
#[verifier::external_body]
pub struct ExRusqliteError(rusqlite::Error);

/// One row of the lines relation.
pub ghost struct LineRow {
    /// 1-based position of the line within its document.
    pub pos: int,
    /// The normalized line content.
    pub content: Seq<char>,
    /// The owning document's name.
    pub doc: Seq<char>,
}

/// One row of the contexts relation.
pub ghost struct CtxRow {
    /// 1-based position of the window within its line.
    pub pos: int,
    /// The lowercase anchor word.
    pub word: Seq<char>,
    /// The rotated context string.
    pub content: Seq<char>,
    /// The 1-based position of the owning line.
    pub line: int,
    /// The owning document's name.
    pub doc: Seq<char>,
}

/// The mathematical contents of the store: the three relations, each in
/// insertion order.
pub ghost struct StoreModel {
    pub docs: Seq<Seq<char>>,
    pub lines: Seq<LineRow>,
    pub ctxs: Seq<CtxRow>,
}

impl StoreModel {
    /// The store with no documents, lines or contexts.
    pub open spec fn empty_model() -> StoreModel {
        StoreModel {
            docs: Seq::<Seq<char>>::empty(),
            lines: Seq::<LineRow>::empty(),
            ctxs: Seq::<CtxRow>::empty(),
        }
    }
}

/// The rows a connection's database currently holds (inside a transaction,
/// the staged rows included), in insertion order per relation.
pub uninterp spec fn store_of(c: rusqlite::Connection) -> StoreModel;

/// The contents a rollback would restore: the contents at the last BEGIN
/// while a transaction is open, and the current contents otherwise.
pub uninterp spec fn txn_base_of(c: rusqlite::Connection) -> StoreModel;

/// Whether the connection has an explicit transaction open. Outside one,
/// statements run in autocommit and become durable at once, so the insert
/// wrappers require an open transaction.
pub uninterp spec fn in_txn_of(c: rusqlite::Connection) -> bool;

/// Relies on `rusqlite::Connection::open_in_memory`: a fresh in-memory
/// database holds no rows and has no open transaction.
#[verifier::external_body]
fn open_memory_conn() -> (r: Result<rusqlite::Connection, rusqlite::Error>)
    ensures
        r matches Ok(c) ==> store_of(c) == StoreModel::empty_model() && txn_base_of(c)
            == store_of(c) && !in_txn_of(c),
{
    rusqlite::Connection::open_in_memory()
}

/// Relies on `rusqlite::Connection::open`: a fresh connection has no open
/// transaction, so the visible contents are what a rollback would keep. The
/// contents themselves are whatever the file on disk holds.
#[verifier::external_body]
fn open_file_conn(path: &str) -> (r: Result<rusqlite::Connection, rusqlite::Error>)
    ensures
        r matches Ok(c) ==> txn_base_of(c) == store_of(c) && !in_txn_of(c),
{
    rusqlite::Connection::open(path)
}

/// Relies on `rusqlite::Connection::execute_batch` running CREATE TABLE IF
/// NOT EXISTS statements: tables may appear, but no row is added or removed,
/// so the connection's contents are untouched (it is taken immutably).
#[verifier::external_body]
fn exec_create_tables(conn: &rusqlite::Connection) -> (r: Result<(), rusqlite::Error>)
{
    conn.execute_batch(
        "
        CREATE TABLE IF NOT EXISTS files (
            name TEXT PRIMARY KEY
        );

        CREATE TABLE IF NOT EXISTS lines (
            position INTEGER,
            content TEXT,
            file_name TEXT,
            PRIMARY KEY (position, file_name),
            FOREIGN KEY (file_name) REFERENCES files (name)
        );

        CREATE TABLE IF NOT EXISTS contexts (
            position INTEGER,
            word TEXT,
            content TEXT,
            line INTEGER,
            file_name TEXT,
            PRIMARY KEY (position, line, file_name)
            FOREIGN KEY (line, file_name) REFERENCES lines (position, file_name)
        );
        ",
    )
}

/// Relies on `rusqlite::Connection::execute_batch` with BEGIN: starting a
/// transaction changes no row; on success a transaction is open and the
/// current contents become the state a rollback would restore; on failure
/// (chiefly a transaction already open) nothing changes.
#[verifier::external_body]
fn exec_begin(conn: &mut rusqlite::Connection) -> (r: Result<(), rusqlite::Error>)
    ensures
        store_of(*final (conn)) == store_of(*old(conn)),
        r is Ok ==> txn_base_of(*final (conn)) == store_of(*old(conn)) && in_txn_of(
            *final (conn),
        ),
        r is Err ==> txn_base_of(*final (conn)) == txn_base_of(*old(conn)) && in_txn_of(
            *final (conn),
        ) == in_txn_of(*old(conn)),
{
    (&*conn).execute_batch("BEGIN")
}

/// Relies on `rusqlite::Connection::execute_batch` with COMMIT: on success
/// the staged rows are durable, no transaction is open any more, and a
/// rollback would no longer undo anything; on failure SQLite either keeps
/// the state exactly as it was (a transaction possibly still open) or has
/// rolled the transaction back (contents restored to the base, none open).
#[verifier::external_body]
fn exec_commit(conn: &mut rusqlite::Connection) -> (r: Result<(), rusqlite::Error>)
    ensures
        r is Ok ==> store_of(*final (conn)) == store_of(*old(conn)) && txn_base_of(*final (conn))
            == store_of(*old(conn)) && !in_txn_of(*final (conn)),
        r is Err ==> txn_base_of(*final (conn)) == txn_base_of(*old(conn)) && ((store_of(
            *final (conn),
        ) == store_of(*old(conn)) && in_txn_of(*final (conn)) == in_txn_of(*old(conn))) || (
        store_of(*final (conn)) == txn_base_of(*old(conn)) && !in_txn_of(*final (conn)))),
{
    (&*conn).execute_batch("COMMIT")
}

/// Relies on `rusqlite::Connection::execute_batch` with ROLLBACK: an open
/// transaction is undone, restoring the contents from the last BEGIN; when no
/// transaction is open (an earlier failure may already have rolled it back)
/// the contents already equal that state and the statement's own error
/// changes nothing.
#[verifier::external_body]
fn exec_rollback(conn: &mut rusqlite::Connection)
    ensures
        store_of(*final (conn)) == txn_base_of(*old(conn)),
        txn_base_of(*final (conn)) == txn_base_of(*old(conn)),
        !in_txn_of(*final (conn)),
{
    let _ = (&*conn).execute_batch("ROLLBACK");
}

/// Relies on `rusqlite::Connection::execute` with INSERT INTO files, run
/// inside an open transaction: on success exactly the given name is staged
/// onto the documents relation and the transaction stays open; a failed
/// statement (a duplicate name is refused by the primary key) leaves the
/// rows as they were with the transaction still open, unless SQLite aborted
/// the whole transaction, which restores the rollback base and closes it.
#[verifier::external_body]
fn exec_insert_doc(conn: &mut rusqlite::Connection, name: &str) -> (r: Result<(), rusqlite::Error>)
    requires
        in_txn_of(*old(conn)),
    ensures
        txn_base_of(*final (conn)) == txn_base_of(*old(conn)),
        r is Ok ==> in_txn_of(*final (conn)) && store_of(*final (conn)) == (StoreModel {
            docs: store_of(*old(conn)).docs.push(name@),
            lines: store_of(*old(conn)).lines,
            ctxs: store_of(*old(conn)).ctxs,
        }),
        r is Err ==> ((store_of(*final (conn)) == store_of(*old(conn)) && in_txn_of(
            *final (conn),
        )) || (store_of(*final (conn)) == txn_base_of(*old(conn)) && !in_txn_of(*final (conn)))),
{
    match (&*conn).execute("INSERT INTO files (name) VALUES (?1)", (name,)) {
        Ok(_) => Ok(()),
        Err(e) => Err(e),
    }
}

/// Relies on `rusqlite::Connection::execute` with INSERT INTO lines, run
/// inside an open transaction: on success exactly one line row with the
/// given position, content and document is staged and the transaction stays
/// open; on failure the rows are as they were with the transaction still
/// open, unless SQLite aborted the whole transaction, which restores the
/// rollback base and closes it.
#[verifier::external_body]
fn exec_insert_line(
    conn: &mut rusqlite::Connection,
    pos: usize,
    content: &str,
    doc: &str,
) -> (r: Result<(), rusqlite::Error>)
    requires
        in_txn_of(*old(conn)),
    ensures
        txn_base_of(*final (conn)) == txn_base_of(*old(conn)),
        r is Ok ==> in_txn_of(*final (conn)) && store_of(*final (conn)) == (StoreModel {
            docs: store_of(*old(conn)).docs,
            lines: store_of(*old(conn)).lines.push(
                LineRow { pos: pos as int, content: content@, doc: doc@ },
            ),
            ctxs: store_of(*old(conn)).ctxs,
        }),
        r is Err ==> ((store_of(*final (conn)) == store_of(*old(conn)) && in_txn_of(
            *final (conn),
        )) || (store_of(*final (conn)) == txn_base_of(*old(conn)) && !in_txn_of(*final (conn)))),
{
    let p = match i64::try_from(pos) {
        Ok(p) => p,
        Err(e) => return Err(rusqlite::Error::ToSqlConversionFailure(e.into())),
    };
    match (&*conn).execute(
        "INSERT INTO lines (position, content, file_name) VALUES (?1, ?2, ?3)",
        (p, content, doc),
    ) {
        Ok(_) => Ok(()),
        Err(e) => Err(e),
    }
}

/// Relies on `rusqlite::Connection::execute` with INSERT INTO contexts, run
/// inside an open transaction: on success exactly one context row with the
/// given fields is staged and the transaction stays open; on failure the
/// rows are as they were with the transaction still open, unless SQLite
/// aborted the whole transaction, which restores the rollback base and
/// closes it.
#[verifier::external_body]
fn exec_insert_ctx(
    conn: &mut rusqlite::Connection,
    pos: usize,
    word: &str,
    content: &str,
    line: usize,
    doc: &str,
) -> (r: Result<(), rusqlite::Error>)
    requires
        in_txn_of(*old(conn)),
    ensures
        txn_base_of(*final (conn)) == txn_base_of(*old(conn)),
        r is Ok ==> in_txn_of(*final (conn)) && store_of(*final (conn)) == (StoreModel {
            docs: store_of(*old(conn)).docs,
            lines: store_of(*old(conn)).lines,
            ctxs: store_of(*old(conn)).ctxs.push(
                CtxRow {
                    pos: pos as int,
                    word: word@,
                    content: content@,
                    line: line as int,
                    doc: doc@,
                },
            ),
        }),
        r is Err ==> ((store_of(*final (conn)) == store_of(*old(conn)) && in_txn_of(
            *final (conn),
        )) || (store_of(*final (conn)) == txn_base_of(*old(conn)) && !in_txn_of(*final (conn)))),
{
    let p = match i64::try_from(pos) {
        Ok(p) => p,
        Err(e) => return Err(rusqlite::Error::ToSqlConversionFailure(e.into())),
    };
    let l = match i64::try_from(line) {
        Ok(l) => l,
        Err(e) => return Err(rusqlite::Error::ToSqlConversionFailure(e.into())),
    };
    match (&*conn).execute(
        "INSERT INTO contexts (position, word, content, line, file_name) VALUES (?1, ?2, ?3, ?4, ?5)",
        (p, word, content, l, doc),
    ) {
        Ok(_) => Ok(()),
        Err(e) => Err(e),
    }
}

/// Relies on `rusqlite::Statement::exists` with SELECT on files: tells
/// whether some documents row holds exactly this name; no row changes (the
/// connection is taken immutably).
#[verifier::external_body]
fn exec_doc_exists(conn: &rusqlite::Connection, name: &str) -> (r: Result<bool, rusqlite::Error>)
    ensures
        r matches Ok(b) ==> b == store_of(*conn).docs.contains(name@),
{
    let mut stmt = conn.prepare("SELECT name FROM files WHERE name = ?1")?;
    stmt.exists((name,))
}

/// The errors the library reports: every one is a storage failure carried up
/// from SQLite. I/O around the library (reading documents, prompting) is the
/// caller's concern and never enters here.
#[derive(Debug)]
pub enum StoreError {
    Storage(rusqlite::Error),
}

/// The rows of lines a document's raw lines produce: line `i` (0-based)
/// becomes position `i + 1` with its normalized content.
pub open spec fn line_rows_of(name: Seq<char>, raws: Seq<Seq<char>>) -> Seq<LineRow> {
    Seq::new(
        raws.len(),
        |i: int| LineRow { pos: i + 1, content: normalize(raws[i]), doc: name },
    )
}

/// The context rows one line produces: its windows in emission order, window
/// `j` (0-based) at position `j + 1`.
pub open spec fn ctx_rows_of_line(
    name: Seq<char>,
    line_pos: int,
    raw: Seq<char>,
    stops: Seq<Seq<char>>,
) -> Seq<CtxRow> {
    let ws = line_windows(tokens_of(normalize(raw)), stops);
    Seq::new(
        ws.len(),
        |j: int| CtxRow { pos: j + 1, word: ws[j].word, content: ws[j].content, line: line_pos, doc: name },
    )
}

/// The context rows of the first `i` lines of the document, in order.
pub open spec fn ctx_rows_upto(
    name: Seq<char>,
    raws: Seq<Seq<char>>,
    stops: Seq<Seq<char>>,
    i: int,
) -> Seq<CtxRow>
    decreases i,
{
    if i <= 0 {
        Seq::<CtxRow>::empty()
    } else {
        ctx_rows_upto(name, raws, stops, i - 1) + ctx_rows_of_line(name, i, raws[i - 1], stops)
    }
}

/// The store after ingesting a document that was not present: its name is
/// appended, and every line and context row it produces follows.
pub open spec fn ingest_model(
    s: StoreModel,
    name: Seq<char>,
    raws: Seq<Seq<char>>,
    stops: Seq<Seq<char>>,
) -> StoreModel {
    StoreModel {
        docs: s.docs.push(name),
        lines: s.lines + line_rows_of(name, raws),
        ctxs: s.ctxs + ctx_rows_upto(name, raws, stops, raws.len() as int),
    }
}

/// The store after an ingest call: unchanged when the document is already
/// present (the idempotent skip), else extended with the document's rows.
pub open spec fn ingest_result(
    s: StoreModel,
    name: Seq<char>,
    raws: Seq<Seq<char>>,
    stops: Seq<Seq<char>>,
) -> StoreModel {
    if s.docs.contains(name) {
        s
    } else {
        ingest_model(s, name, raws, stops)
    }
}

/// A concordance store backed by a SQLite database.
pub struct Store {
    /// The underlying SQLite connection.
    pub conn: rusqlite::Connection,
}

impl View for Store {
    type V = StoreModel;

    open spec fn view(&self) -> StoreModel {
        store_of(self.conn)
    }
}

impl Store {
    /// No transaction is open: the contents are durable, and a rollback
    /// would change nothing. Constructors establish this and every method
    /// keeps it.
    pub open spec fn at_rest(&self) -> bool {
        !in_txn_of(self.conn) && txn_base_of(self.conn) == store_of(self.conn)
    }

    /// Opens a fresh in-memory store holding no documents.
    pub fn new_in_memory() -> (r: Result<Store, StoreError>)
        ensures
            r matches Ok(s) ==> s@ == StoreModel::empty_model() && s.at_rest(),
    {
        let conn = match open_memory_conn() {
            Ok(conn) => conn,
            Err(e) => {
                return Err(StoreError::Storage(e));
            },
        };
        match exec_create_tables(&conn) {
            Ok(()) => Ok(Store { conn }),
            Err(e) => Err(StoreError::Storage(e)),
        }
    }

    /// Opens the store kept in the database file at `path`, creating the
    /// file and its tables when they are absent. The contents are whatever
    /// earlier runs left there. A file-backed store assumes it is the only
    /// handle open against its database: two handles ingesting at once could
    /// both pass the existence check before either writes.
    pub fn open_at(path: &str) -> (r: Result<Store, StoreError>)
        ensures
            r matches Ok(s) ==> s.at_rest(),
    {
        let conn = match open_file_conn(path) {
            Ok(conn) => conn,
            Err(e) => {
                return Err(StoreError::Storage(e));
            },
        };
        match exec_create_tables(&conn) {
            Ok(()) => Ok(Store { conn }),
            Err(e) => Err(StoreError::Storage(e)),
        }
    }

    /// Ingests one document: if a document of this name is already present
    /// nothing happens and the call succeeds (the idempotent skip);
    /// otherwise, in one transaction, the document's name is recorded and
    /// every raw line, in order, yields its line row and the context windows
    /// of its content words. On any failure the store is exactly as it was.
    pub fn ingest(
        &mut self,
        name: &str,
        raw_lines: &Vec<String>,
        stop_words: &Vec<String>,
    ) -> (r: Result<(), StoreError>)
        ensures
            r is Ok ==> final (self)@ == ingest_result(
                old(self)@,
                name@,
                views_of(raw_lines@),
                views_of(stop_words@),
            ),
            r is Err ==> final (self)@ == old(self)@,
            old(self).at_rest() ==> final (self).at_rest(),
    {
        let ghost s0 = store_of(self.conn);
        let ghost rv = views_of(raw_lines@);
        let ghost sv = views_of(stop_words@);

        let exists = match exec_doc_exists(&self.conn, name) {
            Ok(b) => b,
            Err(e) => {
                return Err(StoreError::Storage(e));
            },
        };
        if exists {
            return Ok(());
        }
        match exec_begin(&mut self.conn) {
            Ok(()) => (),
            Err(e) => {
                return Err(StoreError::Storage(e));
            },
        }
        // From here a transaction is open with base s0: every failure rolls
        // back to exactly the entry state.
        match exec_insert_doc(&mut self.conn, name) {
            Ok(()) => (),
            Err(e) => {
                exec_rollback(&mut self.conn);
                return Err(StoreError::Storage(e));
            },
        }
        proof {
            assert(ctx_rows_upto(name@, rv, sv, 0) =~= Seq::<CtxRow>::empty());
            assert(store_of(self.conn).lines =~= s0.lines + line_rows_of(name@, rv.take(0)));
            assert(store_of(self.conn).ctxs =~= s0.ctxs + ctx_rows_upto(name@, rv, sv, 0));
        }
        let mut i: usize = 0;
        while i < raw_lines.len()
            invariant
                rv == views_of(raw_lines@),
                sv == views_of(stop_words@),
                i <= raw_lines@.len(),
                s0 == old(self)@,
                in_txn_of(self.conn),
                txn_base_of(self.conn) == s0,
                store_of(self.conn).docs == s0.docs.push(name@),
                store_of(self.conn).lines == s0.lines + line_rows_of(name@, rv.take(i as int)),
                store_of(self.conn).ctxs == s0.ctxs + ctx_rows_upto(name@, rv, sv, i as int),
            decreases raw_lines@.len() - i,
        {
            let normalized = crate::text::normalize_line(raw_lines[i].as_str());
            let line_no = i + 1;
            match exec_insert_line(&mut self.conn, line_no, normalized.as_str(), name) {
                Ok(()) => (),
                Err(e) => {
                    exec_rollback(&mut self.conn);
                    return Err(StoreError::Storage(e));
                },
            }
            proof {
                assert(rv[i as int] == raw_lines@[i as int]@);
                assert(line_rows_of(name@, rv.take(i + 1)) =~= line_rows_of(
                    name@,
                    rv.take(i as int),
                ).push(LineRow { pos: i + 1, content: normalize(rv[i as int]), doc: name@ }));
                assert(store_of(self.conn).lines =~= s0.lines + line_rows_of(name@, rv.take(i + 1)));
            }
            let tokens = crate::text::split_tokens(normalized.as_str());
            let words = crate::text::remove_stop_words(&tokens, stop_words);
            let wins = crate::windows::build_windows(&tokens, &words);
            let ghost lws = line_windows(tokens_of(normalize(rv[i as int])), sv);
            let ghost line_ctxs = ctx_rows_of_line(name@, i + 1, rv[i as int], sv);
            proof {
                assert(crate::windows::window_views(wins@) == lws);
                assert(line_ctxs.take(0) =~= Seq::<CtxRow>::empty());
                assert(store_of(self.conn).ctxs =~= s0.ctxs + ctx_rows_upto(name@, rv, sv, i as int)
                    + line_ctxs.take(0));
            }
            let mut j: usize = 0;
            while j < wins.len()
                invariant
                    rv == views_of(raw_lines@),
                    sv == views_of(stop_words@),
                    i < raw_lines@.len(),
                    line_no == i + 1,
                    j <= wins@.len(),
                    s0 == old(self)@,
                    lws == line_windows(tokens_of(normalize(rv[i as int])), sv),
                    crate::windows::window_views(wins@) == lws,
                    line_ctxs == ctx_rows_of_line(name@, i + 1, rv[i as int], sv),
                    in_txn_of(self.conn),
                    txn_base_of(self.conn) == s0,
                    store_of(self.conn).docs == s0.docs.push(name@),
                    store_of(self.conn).lines == s0.lines + line_rows_of(name@, rv.take(i + 1)),
                    store_of(self.conn).ctxs == s0.ctxs + ctx_rows_upto(name@, rv, sv, i as int)
                        + line_ctxs.take(j as int),
                decreases wins@.len() - j,
            {
                let win = &wins[j];
                match exec_insert_ctx(
                    &mut self.conn,
                    j + 1,
                    win.word.as_str(),
                    win.content.as_str(),
                    line_no,
                    name,
                ) {
                    Ok(()) => (),
                    Err(e) => {
                        exec_rollback(&mut self.conn);
                        return Err(StoreError::Storage(e));
                    },
                }
                proof {
                    assert(wins@[j as int]@ == lws[j as int]);
                    assert(line_ctxs[j as int] == CtxRow {
                        pos: j + 1,
                        word: lws[j as int].word,
                        content: lws[j as int].content,
                        line: i + 1,
                        doc: name@,
                    });
                    assert(line_ctxs.take(j + 1) =~= line_ctxs.take(j as int).push(
                        line_ctxs[j as int],
                    ));
                    assert(store_of(self.conn).ctxs =~= s0.ctxs + ctx_rows_upto(
                        name@,
                        rv,
                        sv,
                        i as int,
                    ) + line_ctxs.take(j + 1));
                }
                j = j + 1;
            }
            proof {
                assert(line_ctxs.take(lws.len() as int) =~= line_ctxs);
                assert(ctx_rows_upto(name@, rv, sv, i + 1) == ctx_rows_upto(name@, rv, sv, i as int)
                    + ctx_rows_of_line(name@, i + 1, rv[i as int], sv));
                assert(store_of(self.conn).ctxs =~= s0.ctxs + ctx_rows_upto(name@, rv, sv, i + 1));
            }
            i = i + 1;
        }
        match exec_commit(&mut self.conn) {
            Ok(()) => (),
            Err(e) => {
                exec_rollback(&mut self.conn);
                return Err(StoreError::Storage(e));
            },
        }
        proof {
            assert(rv.take(raw_lines@.len() as int) =~= rv);
            assert(store_of(self.conn) == ingest_model(s0, name@, rv, sv));
        }
        Ok(())
    }
}

} // verus!
