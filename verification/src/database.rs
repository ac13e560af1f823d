//! Persistence of workspaces and settings in a local SQLite database.
//!
//! The database is modelled by what it holds: the settings, the workspace
//! rows and the window rows of each workspace, named on the connection
//! (`stored_settings`, `stored_workspaces`, `stored_windows`). Only the calls
//! into `rusqlite` relate these names to what SQLite does: each statement
//! that SQLite reports carried out changes them as its SQL says, and each
//! query answers from them. Nothing is claimed of a failed statement, nor of
//! what a file holds when it is opened (that is on disk). On top of this the
//! library proves that a saved workspace reads back, that a setting reads
//! back as last set, and what each operation leaves unchanged. A connection
//! also keeps a ghost record of the statements and queries it handed over.
use vstd::prelude::*;
use vstd::multiset::Multiset;

use crate::engine::{WindowState, Workspace};
use crate::text::{opt_view, owned, views};
use rusqlite::Connection;
use std::path::PathBuf;

verus! {

#[verifier::external_type_specification]
#[verifier::external_body]
pub struct ExSqliteConnection(rusqlite::Connection);

#[verifier::external_type_specification]
#[verifier::external_body]
pub struct ExSqliteError(rusqlite::Error);

#[verifier::external_type_specification]
#[verifier::external_body]
pub struct ExSqliteValue(rusqlite::types::Value);

#[verifier::external_type_specification]
#[verifier::external_body]
pub struct ExPathBuf(std::path::PathBuf);

/// A value bound to a parameter of an SQL statement.
#[derive(Clone, Debug)]
pub enum SqlArg {
    Text(String),
    Integer(i64),
}

/// A failure reported by SQLite.
#[derive(Debug)]
pub enum DbError {
    Sqlite(rusqlite::Error),
}

impl DbError {
    /// The error's text, as the SQLite driver words it.
    pub fn message(&self) -> String {
        match self {
            DbError::Sqlite(e) => error_text(e),
        }
    }
}

/// The stored columns of a workspace, as a query reads them.
#[derive(Clone, Debug)]
pub struct WorkspaceRow {
    pub name: String,
    pub created_at: i64,
    pub is_favorite: i32,
}

/// The stored columns of a window, as a query reads them.
#[derive(Clone, Debug)]
pub struct WindowRow {
    pub id: i32,
    pub app_name: String,
    pub process_id: u32,
    pub window_title: String,
    pub x: i32,
    pub y: i32,
    pub width: i32,
    pub height: i32,
    pub is_minimized: i32,
    pub is_maximized: i32,
}

// ------------------------------------------------------------------
// What the database holds
// ------------------------------------------------------------------
/// The stored columns of one window row, as integers and texts: app,
/// process id, title, x, y, width, height, minimized flag, maximized flag.
pub type WindowCols = (Seq<char>, int, Seq<char>, int, int, int, int, int, int);

/// The settings table of the database that connection `c` works on: value
/// by key. As every name of the stored contents, it stands for what the
/// connection sees, which is what its own statements made of what it found
/// (no other process writes the file while the daemon runs).
pub uninterp spec fn stored_settings(c: Connection) -> Map<Seq<char>, Seq<char>>;

/// The workspaces table: name, creation time and favorite flag by id.
pub uninterp spec fn stored_workspaces(c: Connection) -> Map<Seq<char>, (Seq<char>, int, int)>;

/// The window rows, by the id of their workspace (a missing id has none);
/// their row ids are left out, and SQLite keeps them in no stated order.
pub uninterp spec fn stored_windows(c: Connection) -> Map<Seq<char>, Multiset<WindowCols>>;

/// The window rows of workspace `id`.
pub open spec fn windows_of(n: Map<Seq<char>, Multiset<WindowCols>>, id: Seq<char>) -> Multiset<WindowCols> {
    if n.contains_key(id) {
        n[id]
    } else {
        Multiset::empty()
    }
}

/// The windows of workspaces other than `id` are the same in `n0` and `n1`.
pub open spec fn other_windows_kept(n0: Map<Seq<char>, Multiset<WindowCols>>, n1: Map<Seq<char>, Multiset<WindowCols>>, id: Seq<char>) -> bool {
    forall|k: Seq<char>| k != id ==> #[trigger] windows_of(n1, k) == windows_of(n0, k)
}

/// The text of a parameter.
pub open spec fn text_of(a: SqlArg) -> Seq<char> {
    match a {
        SqlArg::Text(t) => t@,
        SqlArg::Integer(_) => Seq::empty(),
    }
}

/// The integer of a parameter.
pub open spec fn int_of(a: SqlArg) -> int {
    match a {
        SqlArg::Integer(i) => i as int,
        SqlArg::Text(_) => 0,
    }
}

/// The parameters are texts and integers in the order `kinds` gives
/// (`true` for a text).
pub open spec fn shaped(args: Seq<SqlArg>, kinds: Seq<bool>) -> bool {
    &&& args.len() == kinds.len()
    &&& forall|i: int| 0 <= i < args.len() ==> (#[trigger] args[i] is Text) == kinds[i]
}

/// What statement `sql` with `args`, carried out by SQLite, makes of the
/// contents `(s0, w0, n0)`: `(s1, w1, n1)`. Statements of the schema and of
/// transactions leave the contents as they are (adding the favorite column
/// keeps names and times); the others write what their SQL says. Nothing is
/// stated of other statements.
pub open spec fn applied(
    sql: Seq<char>,
    args: Seq<SqlArg>,
    s0: Map<Seq<char>, Seq<char>>,
    w0: Map<Seq<char>, (Seq<char>, int, int)>,
    n0: Map<Seq<char>, Multiset<WindowCols>>,
    s1: Map<Seq<char>, Seq<char>>,
    w1: Map<Seq<char>, (Seq<char>, int, int)>,
    n1: Map<Seq<char>, Multiset<WindowCols>>,
) -> bool {
    &&& (sql == SQL_UPSERT_SETTING@ && shaped(args, seq![true, true])) ==> {
        &&& s1 == s0.insert(text_of(args[0]), text_of(args[1]))
        &&& w1 == w0
        &&& n1 == n0
    }
    &&& sql == SQL_SEED_HOTKEY@ ==> {
        &&& !s0.contains_key("hotkey"@)
        &&& s1 == s0.insert("hotkey"@, "alt+space"@)
        &&& w1 == w0
        &&& n1 == n0
    }
    &&& (sql == SQL_UPSERT_WORKSPACE@ && shaped(args, seq![true, true, false, false])) ==> {
        &&& s1 == s0
        &&& w1 == w0.insert(text_of(args[0]), (text_of(args[1]), int_of(args[2]), int_of(args[3])))
        &&& other_windows_kept(n0, n1, text_of(args[0]))
    }
    &&& (sql == SQL_DELETE_WINDOWS@ && shaped(args, seq![true])) ==> {
        &&& s1 == s0
        &&& w1 == w0
        &&& windows_of(n1, text_of(args[0])) == Multiset::<WindowCols>::empty()
        &&& other_windows_kept(n0, n1, text_of(args[0]))
    }
    &&& (sql == SQL_INSERT_WINDOW@ && shaped(
        args,
        seq![true, true, false, true, false, false, false, false, false, false],
    )) ==> {
        &&& s1 == s0
        &&& w1 == w0
        &&& windows_of(n1, text_of(args[0])) == windows_of(n0, text_of(args[0])).insert(
            (
                text_of(args[1]),
                int_of(args[2]),
                text_of(args[3]),
                int_of(args[4]),
                int_of(args[5]),
                int_of(args[6]),
                int_of(args[7]),
                int_of(args[8]),
                int_of(args[9]),
            ),
        )
        &&& other_windows_kept(n0, n1, text_of(args[0]))
    }
    &&& (sql == SQL_DELETE_WORKSPACE@ && shaped(args, seq![true])) ==> {
        &&& s1 == s0
        &&& w1 == w0.remove(text_of(args[0]))
        &&& other_windows_kept(n0, n1, text_of(args[0]))
    }
    &&& (sql == SQL_UPDATE_FAVORITE@ && shaped(args, seq![false, true])) ==> {
        &&& s1 == s0
        &&& n1 == n0
        &&& w1 == if w0.contains_key(text_of(args[1])) {
            let old_row = w0[text_of(args[1])];
            w0.insert(text_of(args[1]), (old_row.0, old_row.1, int_of(args[0])))
        } else {
            w0
        }
    }
    &&& sql == SQL_ADD_FAVORITE_COLUMN@ ==> {
        &&& s1 == s0
        &&& n1 == n0
        &&& w1.dom() == w0.dom()
        &&& forall|k: Seq<char>| #[trigger] w1.contains_key(k) ==> w1[k].0 == w0[k].0 && w1[k].1 == w0[k].1
    }
    &&& (sql == SQL_FOREIGN_KEYS@ || sql == SQL_CREATE_WORKSPACES@ || sql == SQL_CREATE_WINDOW_STATES@
        || sql == SQL_CREATE_SETTINGS@ || sql == SQL_BEGIN@ || sql == SQL_COMMIT@) ==> {
        &&& s1 == s0
        &&& w1 == w0
        &&& n1 == n0
    }
}

/// What a query of one text may answer, given the settings `s`: the value
/// of the setting it asks for, `None` when there is none, or an error.
pub open spec fn text_read(s: Map<Seq<char>, Seq<char>>, sql: Seq<char>, args: Seq<SqlArg>, r: Result<Option<String>, rusqlite::Error>) -> bool {
    (sql == SQL_SELECT_SETTING@ && shaped(args, seq![true])) ==> match r {
        Ok(Some(v)) => s.contains_key(text_of(args[0])) && s[text_of(args[0])] == v@,
        Ok(None) => !s.contains_key(text_of(args[0])),
        Err(_) => true,
    }
}

/// What a query of one integer may answer: the favorite flag of the
/// workspace it asks for (an error when there is none), or whether a hotkey
/// is stored.
pub open spec fn int_read(
    s: Map<Seq<char>, Seq<char>>,
    w: Map<Seq<char>, (Seq<char>, int, int)>,
    sql: Seq<char>,
    args: Seq<SqlArg>,
    r: Result<i32, rusqlite::Error>,
) -> bool {
    &&& (sql == SQL_SELECT_FAVORITE@ && shaped(args, seq![true])) ==> match r {
        Ok(f) => w.contains_key(text_of(args[0])) && w[text_of(args[0])].2 == f,
        Err(_) => true,
    } && (!w.contains_key(text_of(args[0])) ==> r is Err)
    &&& (sql == SQL_HAS_HOTKEY@ && args.len() == 0) ==> (r is Ok ==> s.contains_key("hotkey"@)) && (
    !s.contains_key("hotkey"@) ==> r is Err)
}

/// What a query of a workspace's row may answer: its columns, `None` when
/// there is no such workspace, or an error.
pub open spec fn head_read(w: Map<Seq<char>, (Seq<char>, int, int)>, sql: Seq<char>, args: Seq<SqlArg>, r: Result<Option<WorkspaceRow>, rusqlite::Error>) -> bool {
    (sql == SQL_SELECT_WORKSPACE@ && shaped(args, seq![true])) ==> match r {
        Ok(Some(row)) => w.contains_key(text_of(args[0])) && w[text_of(args[0])] == (
            row.name@,
            row.created_at as int,
            row.is_favorite as int,
        ),
        Ok(None) => !w.contains_key(text_of(args[0])),
        Err(_) => true,
    }
}

/// The stored columns of a window row read back.
pub open spec fn row_cols(r: WindowRow) -> WindowCols {
    (
        r.app_name@,
        r.process_id as int,
        r.window_title@,
        r.x as int,
        r.y as int,
        r.width as int,
        r.height as int,
        r.is_minimized as int,
        r.is_maximized as int,
    )
}

/// The stored columns of a window as a save writes them.
pub open spec fn window_cols(w: WindowState) -> WindowCols {
    (
        w.app_name@,
        w.process_id as int,
        w.window_title@,
        w.x as int,
        w.y as int,
        w.width as int,
        w.height as int,
        flag_value(w.is_minimized),
        flag_value(w.is_maximized),
    )
}

/// The stored columns of the windows of a workspace, in no order.
pub open spec fn windows_cols(ws: Seq<WindowState>) -> Multiset<WindowCols> {
    ws.map_values(|w: WindowState| window_cols(w)).to_multiset()
}

/// The contents `(s1, w1, n1)` are `(s0, w0, n0)` after workspace `ws` was
/// stored: its row replaced, its windows exactly its own, everything else as
/// it was.
pub open spec fn saved_into(
    s0: Map<Seq<char>, Seq<char>>,
    w0: Map<Seq<char>, (Seq<char>, int, int)>,
    n0: Map<Seq<char>, Multiset<WindowCols>>,
    s1: Map<Seq<char>, Seq<char>>,
    w1: Map<Seq<char>, (Seq<char>, int, int)>,
    n1: Map<Seq<char>, Multiset<WindowCols>>,
    ws: Workspace,
) -> bool {
    &&& s1 == s0
    &&& w1 == w0.insert(ws.id@, (ws.name@, ws.created_at as int, flag_value(ws.is_favorite)))
    &&& windows_of(n1, ws.id@) == windows_cols(ws.windows@)
    &&& other_windows_kept(n0, n1, ws.id@)
}

/// `ws` is what the contents `(w, n)` hold under `id`: its name, time and
/// flag are the stored row's, and its windows are the stored window rows of
/// `id`, read back in some order.
pub open spec fn stored_as(
    w: Map<Seq<char>, (Seq<char>, int, int)>,
    n: Map<Seq<char>, Multiset<WindowCols>>,
    id: Seq<char>,
    ws: Workspace,
) -> bool {
    &&& ws.id@ == id
    &&& w.contains_key(id)
    &&& w[id].0 == ws.name@
    &&& w[id].1 == ws.created_at
    &&& (w[id].2 != 0) == ws.is_favorite
    &&& exists|rows: Seq<WindowRow>| #[trigger] rows_cols(rows) == windows_of(n, id) && ws.windows@ == windows_of_rows(rows)
}

/// The stored columns of window rows, in no order.
pub open spec fn rows_cols(rows: Seq<WindowRow>) -> Multiset<WindowCols> {
    rows.map_values(|x: WindowRow| row_cols(x)).to_multiset()
}

/// The windows that window rows describe.
pub open spec fn windows_of_rows(rows: Seq<WindowRow>) -> Seq<WindowState> {
    rows.map_values(|x: WindowRow| window_of_row(x))
}

/// What a query of a workspace's window rows may answer: all of them, in
/// some order, or an error.
pub open spec fn rows_read(n: Map<Seq<char>, Multiset<WindowCols>>, sql: Seq<char>, args: Seq<SqlArg>, r: Result<Vec<WindowRow>, rusqlite::Error>) -> bool {
    (sql == SQL_SELECT_WINDOWS@ && shaped(args, seq![true])) ==> match r {
        Ok(rows) => rows_cols(rows@) == windows_of(n, text_of(args[0])),
        Err(_) => true,
    }
}

/// What the query of all workspace ids may answer: each stored id once,
/// newest first, or an error.
pub open spec fn ids_read(w: Map<Seq<char>, (Seq<char>, int, int)>, sql: Seq<char>, args: Seq<SqlArg>, r: Result<Vec<String>, rusqlite::Error>) -> bool {
    (sql == SQL_LIST_IDS@ && args.len() == 0) ==> match r {
        Ok(ids) => {
            &&& views(ids@).no_duplicates()
            &&& forall|k: Seq<char>| w.contains_key(k) <==> #[trigger] views(ids@).contains(k)
            &&& forall|i: int, j: int|
                0 <= i < j < ids@.len() ==> w[#[trigger] ids@[i]@].1 >= w[#[trigger] ids@[j]@].1
        },
        Err(_) => true,
    }
}

// ------------------------------------------------------------------
// Calls into rusqlite
// ------------------------------------------------------------------
/// Turns a parameter value into the driver's value type (`Value::from`),
/// one for one.
#[verifier::external_body]
fn to_sql_value(arg: &SqlArg) -> rusqlite::types::Value {
    match arg {
        SqlArg::Text(s) => rusqlite::types::Value::from(s.clone()),
        SqlArg::Integer(i) => rusqlite::types::Value::from(*i),
    }
}

/// Calls `Connection::open`. Nothing is claimed: whether the file opens
/// depends on the file system.
#[verifier::external_body]
fn open_file(path: &PathBuf) -> Result<Connection, rusqlite::Error> {
    Connection::open(path)
}

/// Calls `Connection::open_in_memory`. Claimed: a new in-memory database
/// holds nothing.
#[verifier::external_body]
fn open_memory() -> (r: Result<Connection, rusqlite::Error>)
    ensures
        r matches Ok(c) ==> {
            &&& stored_settings(c) == Map::<Seq<char>, Seq<char>>::empty()
            &&& stored_workspaces(c) == Map::<Seq<char>, (Seq<char>, int, int)>::empty()
            &&& stored_windows(c) == Map::<Seq<char>, Multiset<WindowCols>>::empty()
        },
{
    Connection::open_in_memory()
}

/// Calls `Connection::execute` with `args` bound in order. Claimed, when
/// SQLite reports success: the statement did what its SQL says (`applied`);
/// nothing is claimed of a failed statement, which SQLite may have undone
/// alone or with the rest of its transaction.
#[verifier::external_body]
fn execute(conn: &mut Connection, sql: &str, args: &Vec<SqlArg>) -> (r: Result<usize, rusqlite::Error>)
    ensures
        r is Ok ==> applied(
            sql@,
            args@,
            stored_settings(*old(conn)),
            stored_workspaces(*old(conn)),
            stored_windows(*old(conn)),
            stored_settings(*final(conn)),
            stored_workspaces(*final(conn)),
            stored_windows(*final(conn)),
        ),
{
    conn.execute(sql, rusqlite::params_from_iter(args.iter().map(to_sql_value)))
}

/// Calls `Connection::query_row`, reading the first column of the first row
/// as an integer; a query without rows ends in an error. Claimed: the
/// answer is what `int_read` allows of the contents.
#[verifier::external_body]
fn query_int(conn: &Connection, sql: &str, args: &Vec<SqlArg>) -> (r: Result<i32, rusqlite::Error>)
    ensures
        int_read(stored_settings(*conn), stored_workspaces(*conn), sql@, args@, r),
{
    conn.query_row(sql, rusqlite::params_from_iter(args.iter().map(to_sql_value)), |row| row.get(0))
}

/// Calls `Connection::query_row`, reading the first column of the first row
/// as text; a query without rows (`QueryReturnedNoRows`) gives `None`.
/// Claimed: the answer is what `text_read` allows of the contents.
#[verifier::external_body]
fn query_text(conn: &Connection, sql: &str, args: &Vec<SqlArg>) -> (r: Result<Option<String>, rusqlite::Error>)
    ensures
        text_read(stored_settings(*conn), sql@, args@, r),
{
    let params = rusqlite::params_from_iter(args.iter().map(to_sql_value));
    match conn.query_row(sql, params, |row| row.get(0)) {
        Ok(v) => Ok(Some(v)),
        Err(rusqlite::Error::QueryReturnedNoRows) => Ok(None),
        Err(e) => Err(e),
    }
}

/// Calls `Connection::query_row`, reading a name, a time and a flag from the
/// first row; a query without rows gives `None`. Claimed: the answer is
/// what `head_read` allows of the contents.
#[verifier::external_body]
fn query_workspace_row(conn: &Connection, sql: &str, args: &Vec<SqlArg>) -> (r: Result<Option<WorkspaceRow>, rusqlite::Error>)
    ensures
        head_read(stored_workspaces(*conn), sql@, args@, r),
{
    let params = rusqlite::params_from_iter(args.iter().map(to_sql_value));
    let read = |row: &rusqlite::Row| Ok(WorkspaceRow { name: row.get(0)?, created_at: row.get(1)?, is_favorite: row.get(2)? });
    match conn.query_row(sql, params, read) {
        Ok(v) => Ok(Some(v)),
        Err(rusqlite::Error::QueryReturnedNoRows) => Ok(None),
        Err(e) => Err(e),
    }
}

/// Calls `Connection::prepare` and `Statement::query_map`, reading every row
/// as a window row. Claimed: the answer is what `rows_read` allows of the
/// contents.
#[verifier::external_body]
fn query_window_rows(conn: &Connection, sql: &str, args: &Vec<SqlArg>) -> (r: Result<Vec<WindowRow>, rusqlite::Error>)
    ensures
        rows_read(stored_windows(*conn), sql@, args@, r),
{
    let mut stmt = conn.prepare(sql)?;
    let rows = stmt.query_map(rusqlite::params_from_iter(args.iter().map(to_sql_value)), |row| Ok(WindowRow {
        id: row.get(0)?, app_name: row.get(1)?, process_id: row.get(2)?, window_title: row.get(3)?,
        x: row.get(4)?, y: row.get(5)?, width: row.get(6)?, height: row.get(7)?,
        is_minimized: row.get(8)?, is_maximized: row.get(9)?,
    }))?;
    rows.collect()
}

/// Calls `Connection::prepare` and `Statement::query_map`, reading the first
/// column of every row as text. Claimed: the answer is what `ids_read`
/// allows of the contents.
#[verifier::external_body]
fn query_texts(conn: &Connection, sql: &str, args: &Vec<SqlArg>) -> (r: Result<Vec<String>, rusqlite::Error>)
    ensures
        ids_read(stored_workspaces(*conn), sql@, args@, r),
{
    let mut stmt = conn.prepare(sql)?;
    let rows = stmt.query_map(rusqlite::params_from_iter(args.iter().map(to_sql_value)), |row| row.get(0))?;
    rows.collect()
}

/// Calls `rusqlite::Error`'s `Display`. Nothing is claimed of the text.
#[verifier::external_body]
fn error_text(e: &rusqlite::Error) -> String {
    e.to_string()
}

// ------------------------------------------------------------------
// What is written and what is read
// ------------------------------------------------------------------
/// The integer with which a flag is stored.
pub open spec fn flag_value(b: bool) -> int {
    if b {
        1
    } else {
        0
    }
}

/// The parameters of the statement that stores a workspace's own columns:
/// id, name, creation time, favorite flag.
pub open spec fn workspace_params(ws: Workspace) -> Seq<SqlArg> {
    seq![
        SqlArg::Text(ws.id),
        SqlArg::Text(ws.name),
        SqlArg::Integer(ws.created_at),
        SqlArg::Integer(flag_value(ws.is_favorite) as i64),
    ]
}

/// The parameters of the statement that stores one window of workspace
/// `workspace_id`: workspace id, app, process id, title, x, y, width,
/// height, minimized flag, maximized flag.
pub open spec fn window_params(workspace_id: String, w: WindowState) -> Seq<SqlArg> {
    seq![
        SqlArg::Text(workspace_id),
        SqlArg::Text(w.app_name),
        SqlArg::Integer(w.process_id as i64),
        SqlArg::Text(w.window_title),
        SqlArg::Integer(w.x as i64),
        SqlArg::Integer(w.y as i64),
        SqlArg::Integer(w.width as i64),
        SqlArg::Integer(w.height as i64),
        SqlArg::Integer(flag_value(w.is_minimized) as i64),
        SqlArg::Integer(flag_value(w.is_maximized) as i64),
    ]
}

/// The row that holds the columns written for `w`, under row id `id`.
pub open spec fn stored_window(w: WindowState, id: i32) -> WindowRow {
    WindowRow {
        id,
        app_name: w.app_name,
        process_id: w.process_id,
        window_title: w.window_title,
        x: w.x,
        y: w.y,
        width: w.width,
        height: w.height,
        is_minimized: flag_value(w.is_minimized) as i32,
        is_maximized: flag_value(w.is_maximized) as i32,
    }
}

/// The row that holds the columns written for workspace `ws`.
pub open spec fn stored_workspace(ws: Workspace) -> WorkspaceRow {
    WorkspaceRow { name: ws.name, created_at: ws.created_at, is_favorite: flag_value(ws.is_favorite) as i32 }
}

/// The window a stored row describes.
pub open spec fn window_of_row(r: WindowRow) -> WindowState {
    WindowState {
        id: Some(r.id),
        app_name: r.app_name,
        process_id: r.process_id,
        window_title: r.window_title,
        x: r.x,
        y: r.y,
        width: r.width,
        height: r.height,
        is_minimized: r.is_minimized != 0,
        is_maximized: r.is_maximized != 0,
    }
}

/// The workspace that stored rows describe.
pub open spec fn workspace_of_rows(id: Seq<char>, head: WorkspaceRow, rows: Seq<WindowRow>) -> (Seq<char>, Seq<char>, i64, bool, Seq<WindowState>) {
    (id, head.name@, head.created_at, head.is_favorite != 0, rows.map_values(|r: WindowRow| window_of_row(r)))
}

/// The parameters that store the workspace's own columns.
pub fn workspace_args(ws: &Workspace) -> (r: Vec<SqlArg>)
    ensures
        r@ == workspace_params(*ws),
{
    let fav: i64 = if ws.is_favorite { 1 } else { 0 };
    let r = vec![
        SqlArg::Text(ws.id.clone()),
        SqlArg::Text(ws.name.clone()),
        SqlArg::Integer(ws.created_at),
        SqlArg::Integer(fav),
    ];
    proof {
        assert(r@ =~= workspace_params(*ws));
    }
    r
}

/// The parameters that store one window of workspace `workspace_id`.
pub fn window_args(workspace_id: &String, w: &WindowState) -> (r: Vec<SqlArg>)
    ensures
        r@ == window_params(*workspace_id, *w),
{
    let min: i64 = if w.is_minimized { 1 } else { 0 };
    let max: i64 = if w.is_maximized { 1 } else { 0 };
    let r = vec![
        SqlArg::Text(workspace_id.clone()),
        SqlArg::Text(w.app_name.clone()),
        SqlArg::Integer(w.process_id as i64),
        SqlArg::Text(w.window_title.clone()),
        SqlArg::Integer(w.x as i64),
        SqlArg::Integer(w.y as i64),
        SqlArg::Integer(w.width as i64),
        SqlArg::Integer(w.height as i64),
        SqlArg::Integer(min),
        SqlArg::Integer(max),
    ];
    proof {
        assert(r@ =~= window_params(*workspace_id, *w));
    }
    r
}

/// The window a stored row describes.
pub fn window_from_row(row: &WindowRow) -> (w: WindowState)
    ensures
        w == window_of_row(*row),
{
    WindowState {
        id: Some(row.id),
        app_name: row.app_name.clone(),
        process_id: row.process_id,
        window_title: row.window_title.clone(),
        x: row.x,
        y: row.y,
        width: row.width,
        height: row.height,
        is_minimized: row.is_minimized != 0,
        is_maximized: row.is_maximized != 0,
    }
}

/// The workspace `id` that a stored row and its stored windows describe.
pub fn workspace_from_rows(id: &str, head: WorkspaceRow, rows: Vec<WindowRow>) -> (ws: Workspace)
    ensures
        (ws.id@, ws.name@, ws.created_at, ws.is_favorite, ws.windows@) == workspace_of_rows(id@, head, rows@),
{
    let mut windows: Vec<WindowState> = Vec::new();
    let mut i: usize = 0;
    while i < rows.len()
        invariant
            i <= rows@.len(),
            windows@ == rows@.take(i as int).map_values(|r: WindowRow| window_of_row(r)),
        decreases rows@.len() - i,
    {
        let w = window_from_row(&rows[i]);
        windows.push(w);
        proof {
            assert(windows@ =~= rows@.take(i + 1).map_values(|r: WindowRow| window_of_row(r)));
        }
        i = i + 1;
    }
    proof {
        assert(rows@.take(rows@.len() as int) =~= rows@);
    }
    Workspace {
        id: owned(id),
        name: head.name,
        created_at: head.created_at,
        is_favorite: head.is_favorite != 0,
        windows,
    }
}

/// The parameters written for a window are the columns of its stored row,
/// in the order the window table lists them after the workspace id; reading
/// that row back gives the window, with the row id as its id.
pub proof fn lemma_window_round_trip(workspace_id: String, w: WindowState, id: i32)
    ensures
        ({
            let r = stored_window(w, id);
            window_params(workspace_id, w) == seq![
                SqlArg::Text(workspace_id),
                SqlArg::Text(r.app_name),
                SqlArg::Integer(r.process_id as i64),
                SqlArg::Text(r.window_title),
                SqlArg::Integer(r.x as i64),
                SqlArg::Integer(r.y as i64),
                SqlArg::Integer(r.width as i64),
                SqlArg::Integer(r.height as i64),
                SqlArg::Integer(r.is_minimized as i64),
                SqlArg::Integer(r.is_maximized as i64),
            ]
        }),
        window_of_row(stored_window(w, id)) == (WindowState { id: Some(id), ..w }),
{
}

/// The parameters written for a workspace's own row are its columns after
/// the id.
pub proof fn lemma_workspace_params_are_columns(ws: Workspace)
    ensures
        ({
            let r = stored_workspace(ws);
            workspace_params(ws) == seq![
                SqlArg::Text(ws.id),
                SqlArg::Text(r.name),
                SqlArg::Integer(r.created_at),
                SqlArg::Integer(r.is_favorite as i64),
            ]
        }),
{
}

/// Reading back the rows written for a workspace gives that workspace,
/// each window carrying the id of its row.
pub proof fn lemma_workspace_round_trip(ws: Workspace, ids: Seq<i32>)
    requires
        ids.len() == ws.windows@.len(),
    ensures
        ({
            let rows = Seq::new(ws.windows@.len(), |k: int| stored_window(ws.windows@[k], ids[k]));
            let back = workspace_of_rows(ws.id@, stored_workspace(ws), rows);
            &&& back.0 == ws.id@
            &&& back.1 == ws.name@
            &&& back.2 == ws.created_at
            &&& back.3 == ws.is_favorite
            &&& back.4 == Seq::new(ws.windows@.len(), |k: int| WindowState { id: Some(ids[k]), ..ws.windows@[k] })
        }),
{
    let rows = Seq::new(ws.windows@.len(), |k: int| stored_window(ws.windows@[k], ids[k]));
    assert(rows.map_values(|r: WindowRow| window_of_row(r)) =~= Seq::new(
        ws.windows@.len(),
        |k: int| WindowState { id: Some(ids[k]), ..ws.windows@[k] },
    ));
}

/// The stored favorite flag after a toggle, and whether it is now set.
pub fn flipped_favorite(current: i32) -> (r: (i32, bool))
    ensures
        r.0 == flip_flag(current),
        r.1 == (current == 0),
{
    let new_state: i32 = if current == 0 {
        1
    } else {
        0
    };
    (new_state, new_state != 0)
}

/// Toggling twice gives back the stored flag, when it was stored as 0 or 1.
pub proof fn lemma_toggle_twice(current: i32)
    requires
        current == 0 || current == 1,
    ensures
        flip_flag(flip_flag(current)) == current,
{
}

/// The hotkey that toggles the dashboard until the user picks another.
pub fn default_hotkey() -> (r: String)
    ensures
        r@ == "alt+space"@,
{
    owned("alt+space")
}

// ------------------------------------------------------------------
// The statements
// ------------------------------------------------------------------
pub const SQL_FOREIGN_KEYS: &'static str = "PRAGMA foreign_keys = ON;";

pub const SQL_CREATE_WORKSPACES: &'static str = "CREATE TABLE IF NOT EXISTS workspaces (
                id TEXT PRIMARY KEY,
                name TEXT NOT NULL,
                created_at INTEGER NOT NULL
            );";

pub const SQL_ADD_FAVORITE_COLUMN: &'static str = "ALTER TABLE workspaces ADD COLUMN is_favorite INTEGER NOT NULL DEFAULT 0;";

pub const SQL_CREATE_WINDOW_STATES: &'static str = "CREATE TABLE IF NOT EXISTS window_states (
                id INTEGER PRIMARY KEY AUTOINCREMENT,
                workspace_id TEXT NOT NULL,
                app_name TEXT NOT NULL,
                process_id INTEGER NOT NULL,
                window_title TEXT NOT NULL,
                x INTEGER NOT NULL,
                y INTEGER NOT NULL,
                width INTEGER NOT NULL,
                height INTEGER NOT NULL,
                is_minimized INTEGER NOT NULL,
                is_maximized INTEGER NOT NULL,
                FOREIGN KEY(workspace_id) REFERENCES workspaces(id) ON DELETE CASCADE
            );";

pub const SQL_CREATE_SETTINGS: &'static str = "CREATE TABLE IF NOT EXISTS settings (
                key TEXT PRIMARY KEY,
                value TEXT NOT NULL
            );";

pub const SQL_HAS_HOTKEY: &'static str = "SELECT 1 FROM settings WHERE key = 'hotkey';";

pub const SQL_SEED_HOTKEY: &'static str = "INSERT INTO settings (key, value) VALUES ('hotkey', 'alt+space');";

pub const SQL_BEGIN: &'static str = "BEGIN DEFERRED";

pub const SQL_COMMIT: &'static str = "COMMIT";

pub const SQL_ROLLBACK: &'static str = "ROLLBACK";

pub const SQL_UPSERT_WORKSPACE: &'static str = "INSERT OR REPLACE INTO workspaces (id, name, created_at, is_favorite) VALUES (?1, ?2, ?3, ?4);";

pub const SQL_DELETE_WINDOWS: &'static str = "DELETE FROM window_states WHERE workspace_id = ?1;";

pub const SQL_INSERT_WINDOW: &'static str = "INSERT INTO window_states (
                workspace_id, app_name, process_id, window_title, x, y, width, height, is_minimized, is_maximized
            ) VALUES (?1, ?2, ?3, ?4, ?5, ?6, ?7, ?8, ?9, ?10);";

pub const SQL_SELECT_WORKSPACE: &'static str = "SELECT name, created_at, is_favorite FROM workspaces WHERE id = ?1;";

pub const SQL_SELECT_WINDOWS: &'static str = "SELECT id, app_name, process_id, window_title, x, y, width, height, is_minimized, is_maximized 
             FROM window_states WHERE workspace_id = ?1;";

pub const SQL_LIST_IDS: &'static str = "SELECT id FROM workspaces ORDER BY created_at DESC;";

pub const SQL_DELETE_WORKSPACE: &'static str = "DELETE FROM workspaces WHERE id = ?1;";

pub const SQL_SELECT_FAVORITE: &'static str = "SELECT is_favorite FROM workspaces WHERE id = ?1;";

pub const SQL_UPDATE_FAVORITE: &'static str = "UPDATE workspaces SET is_favorite = ?1 WHERE id = ?2;";

pub const SQL_SELECT_SETTING: &'static str = "SELECT value FROM settings WHERE key = ?1;";

pub const SQL_UPSERT_SETTING: &'static str = "INSERT OR REPLACE INTO settings (key, value) VALUES (?1, ?2);";

/// A statement handed to SQLite: its text and its parameters.
pub type Statement = (Seq<char>, Seq<SqlArg>);

pub open spec fn stmt(sql: &str, args: Seq<SqlArg>) -> Statement {
    (sql@, args)
}

/// The statements that set up the schema, before the default hotkey is
/// seeded.
pub open spec fn schema_statements() -> Seq<Statement> {
    seq![
        stmt(SQL_FOREIGN_KEYS, seq![]),
        stmt(SQL_CREATE_WORKSPACES, seq![]),
        stmt(SQL_ADD_FAVORITE_COLUMN, seq![]),
        stmt(SQL_CREATE_WINDOW_STATES, seq![]),
        stmt(SQL_CREATE_SETTINGS, seq![]),
    ]
}

/// The statements that store workspace `ws`, in order, inside a
/// transaction: its own row (replacing any), the removal of its old windows,
/// one row per window.
pub open spec fn save_statements(ws: Workspace) -> Seq<Statement> {
    seq![
        stmt(SQL_BEGIN, seq![]),
        stmt(SQL_UPSERT_WORKSPACE, workspace_params(ws)),
        stmt(SQL_DELETE_WINDOWS, seq![SqlArg::Text(ws.id)]),
    ] + Seq::new(ws.windows@.len(), |k: int| stmt(SQL_INSERT_WINDOW, window_params(ws.id, ws.windows@[k])))
        + seq![stmt(SQL_COMMIT, seq![])]
}

/// The statement that sets the favorite flag of workspace `id` to `flag`.
pub open spec fn favorite_statement(flag: i32, id: String) -> Statement {
    stmt(SQL_UPDATE_FAVORITE, seq![SqlArg::Integer(flag as i64), SqlArg::Text(id)])
}

/// The stored favorite flag after a toggle.
pub open spec fn flip_flag(f: i32) -> i32 {
    if f == 0 {
        1
    } else {
        0
    }
}

// ------------------------------------------------------------------
// The database
// ------------------------------------------------------------------
/// What SQLite answered to a query: the result of the call, as the driver
/// gave it back.
pub enum ReadAnswer {
    Flag(Result<i32, rusqlite::Error>),
    Text(Result<Option<String>, rusqlite::Error>),
    Head(Result<Option<WorkspaceRow>, rusqlite::Error>),
    Rows(Result<Vec<WindowRow>, rusqlite::Error>),
    Texts(Result<Vec<String>, rusqlite::Error>),
}

/// A query handed to SQLite, and its answer.
pub type Read = (Statement, ReadAnswer);

/// A connection to the workspace database.
pub struct DatabaseManager {
    conn: Connection,
    written: Ghost<Seq<Statement>>,
    accepted: Ghost<Seq<bool>>,
    reads: Ghost<Seq<Read>>,
}

/// The schema statements were handed to SQLite up to the `k`-th, which must
/// succeed and did not; every earlier one that must succeed did.
pub open spec fn schema_stopped_at(written: Seq<Statement>, acc: Seq<bool>, k: int) -> bool {
    &&& 0 <= k < 5
    &&& k != 2
    &&& written == schema_statements().take(k + 1)
    &&& acc.len() == k + 1
    &&& !acc[k]
    &&& forall|j: int| 0 <= j < k && j != 2 ==> #[trigger] acc[j]
}

/// Whether SQLite carried out every statement of the schema that must
/// succeed; adding the favorite column (the third) may fail, as it does
/// where the column exists already.
pub open spec fn schema_accepted(acc: Seq<bool>) -> bool {
    &&& acc.len() >= 5
    &&& acc[0]
    &&& acc[1]
    &&& acc[3]
    &&& acc[4]
}

/// SQLite carried out the statements of the set-up that may fail without
/// failing it: adding the favorite column (the third) and, when it was
/// handed over, the seeding of the hotkey (the sixth).
pub open spec fn init_carried_out(acc: Seq<bool>) -> bool {
    &&& acc.len() >= 5
    &&& acc[2]
    &&& acc.len() > 5 ==> acc[5]
}

/// The contents `(s1, w1, n1)` are `(s0, w0, n0)` after the set-up: the
/// same workspaces (names and times) and windows, and the default hotkey
/// stored where none was.
pub open spec fn set_up_from(
    s0: Map<Seq<char>, Seq<char>>,
    w0: Map<Seq<char>, (Seq<char>, int, int)>,
    n0: Map<Seq<char>, Multiset<WindowCols>>,
    s1: Map<Seq<char>, Seq<char>>,
    w1: Map<Seq<char>, (Seq<char>, int, int)>,
    n1: Map<Seq<char>, Multiset<WindowCols>>,
) -> bool {
    &&& n1 == n0
    &&& w1.dom() == w0.dom()
    &&& forall|k: Seq<char>| #[trigger] w1.contains_key(k) ==> w1[k].0 == w0[k].0 && w1[k].1 == w0[k].1
    &&& s1 == if s0.contains_key("hotkey"@) {
        s0
    } else {
        s0.insert("hotkey"@, "alt+space"@)
    }
}

/// `n` successes.
pub open spec fn all_accepted(n: nat) -> Seq<bool> {
    Seq::new(n, |i: int| true)
}

/// `s` is statement `sql` with the one text parameter `key`.
pub open spec fn is_lookup(s: Statement, sql: &str, key: Seq<char>) -> bool {
    &&& s.0 == sql@
    &&& s.1.len() == 1
    &&& s.1[0] matches SqlArg::Text(t) && t@ == key
}

/// The answer to a lookup of a setting, given what the query gave back.
pub open spec fn setting_answer(found: Result<Option<String>, rusqlite::Error>) -> Result<Option<String>, DbError> {
    match found {
        Ok(v) => Ok(v),
        Err(e) => Err(DbError::Sqlite(e)),
    }
}

/// `ws` is the workspace `id` that the stored row `head` and window rows
/// `rows` describe.
pub open spec fn describes(ws: Workspace, id: Seq<char>, head: WorkspaceRow, rows: Seq<WindowRow>) -> bool {
    (ws.id@, ws.name@, ws.created_at, ws.is_favorite, ws.windows@) == workspace_of_rows(id, head, rows)
}

/// The queries `log` are those of a lookup of workspace `id`, and `r` is
/// its answer: first the workspace's row is read; when that fails or finds
/// nothing, that is the answer; else its window rows are read, and the
/// answer is the workspace they describe, or the error of that read.
pub open spec fn lookup_done(id: Seq<char>, log: Seq<Read>, r: Result<Option<Workspace>, DbError>) -> bool {
    &&& log.len() >= 1
    &&& is_lookup(log[0].0, SQL_SELECT_WORKSPACE, id)
    &&& match log[0].1 {
        ReadAnswer::Head(Err(e)) => log.len() == 1 && r == Err::<Option<Workspace>, DbError>(
            DbError::Sqlite(e),
        ),
        ReadAnswer::Head(Ok(None)) => log.len() == 1 && r == Ok::<Option<Workspace>, DbError>(None),
        ReadAnswer::Head(Ok(Some(head))) => {
            &&& log.len() == 2
            &&& is_lookup(log[1].0, SQL_SELECT_WINDOWS, id)
            &&& match log[1].1 {
                ReadAnswer::Rows(Err(e)) => r == Err::<Option<Workspace>, DbError>(DbError::Sqlite(e)),
                ReadAnswer::Rows(Ok(rows)) => r matches Ok(Some(ws)) && describes(ws, id, head, rows@),
                _ => false,
            }
        },
        _ => false,
    }
}

/// The parts of a log, one after the other.
pub open spec fn joined(parts: Seq<Seq<Read>>) -> Seq<Read>
    decreases parts.len(),
{
    if parts.len() == 0 {
        Seq::empty()
    } else {
        joined(parts.drop_last()) + parts.last()
    }
}

/// The workspaces found by a run of lookups, in order; lookups that failed
/// or found nothing give none.
pub open spec fn found(outs: Seq<Result<Option<Workspace>, DbError>>) -> Seq<Workspace>
    decreases outs.len(),
{
    if outs.len() == 0 {
        Seq::empty()
    } else {
        let before = found(outs.drop_last());
        match outs.last() {
            Ok(Some(ws)) => before.push(ws),
            _ => before,
        }
    }
}

/// `rest` is a lookup of each of `ids` in turn, split into `parts`, with
/// answers `outs`.
pub open spec fn looked_up_each(
    ids: Seq<String>,
    rest: Seq<Read>,
    parts: Seq<Seq<Read>>,
    outs: Seq<Result<Option<Workspace>, DbError>>,
) -> bool {
    &&& parts.len() == ids.len()
    &&& outs.len() == ids.len()
    &&& rest == joined(parts)
    &&& forall|k: int| 0 <= k < ids.len() ==> #[trigger] lookup_done(ids[k]@, parts[k], outs[k])
}

/// The queries `log` are those of a listing, and `r` its answer: the ids
/// are read newest first; when that fails, that is the answer; else each
/// id is looked up in turn, and the answer is the workspaces found.
pub open spec fn listing_done(log: Seq<Read>, r: Result<Vec<Workspace>, DbError>) -> bool {
    &&& log.len() >= 1
    &&& log[0].0 == stmt(SQL_LIST_IDS, seq![])
    &&& match log[0].1 {
        ReadAnswer::Texts(Err(e)) => log.len() == 1 && r == Err::<Vec<Workspace>, DbError>(
            DbError::Sqlite(e),
        ),
        ReadAnswer::Texts(Ok(ids)) => exists|parts: Seq<Seq<Read>>, outs: Seq<Result<Option<Workspace>, DbError>>|
            #[trigger] looked_up_each(ids@, log.drop_first(), parts, outs) && (r matches Ok(v)
                && v@ == found(outs)),
        _ => false,
    }
}

fn no_args() -> (r: Vec<SqlArg>)
    ensures
        r@ == Seq::<SqlArg>::empty(),
{
    let r = Vec::new();
    proof {
        assert(r@ =~= Seq::<SqlArg>::empty());
    }
    r
}

fn text_arg(s: &str) -> (r: Vec<SqlArg>)
    ensures
        r@.len() == 1,
        r@[0] matches SqlArg::Text(t) && t@ == s@,
{
    vec![SqlArg::Text(owned(s))]
}

/// The answer to a lookup of a setting, given what the query gave back: the
/// value found, `None` where no row matched, or the driver's error.
pub fn setting_from_query(found: Result<Option<String>, rusqlite::Error>) -> (r: Result<Option<String>, DbError>)
    ensures
        r == setting_answer(found),
{
    match found {
        Ok(v) => Ok(v),
        Err(e) => Err(DbError::Sqlite(e)),
    }
}

impl DatabaseManager {
    /// Every statement that changes the database, in the order this
    /// connection handed it to SQLite (whether or not SQLite carried it out).
    pub closed spec fn written(&self) -> Seq<Statement> {
        self.written@
    }

    /// For each statement of `written`, whether SQLite reported it carried
    /// out.
    pub closed spec fn accepted(&self) -> Seq<bool> {
        self.accepted@
    }

    /// Every query this connection handed to SQLite, in order, with what
    /// SQLite answered.
    pub closed spec fn reads(&self) -> Seq<Read> {
        self.reads@
    }

    /// The stored settings: value by key.
    pub closed spec fn settings(&self) -> Map<Seq<char>, Seq<char>> {
        stored_settings(self.conn)
    }

    /// The stored workspaces: name, creation time and favorite flag by id.
    pub closed spec fn workspaces(&self) -> Map<Seq<char>, (Seq<char>, int, int)> {
        stored_workspaces(self.conn)
    }

    /// The stored window rows, by workspace id.
    pub closed spec fn windows(&self) -> Map<Seq<char>, Multiset<WindowCols>> {
        stored_windows(self.conn)
    }

    /// Hands a statement to SQLite and records it and its outcome.
    fn write(&mut self, sql: &str, args: &Vec<SqlArg>) -> (r: Result<usize, rusqlite::Error>)
        ensures
            final(self).written() == old(self).written().push(stmt(sql, args@)),
            final(self).accepted() == old(self).accepted().push(r is Ok),
            final(self).reads() == old(self).reads(),
            r is Ok ==> applied(
                sql@,
                args@,
                old(self).settings(),
                old(self).workspaces(),
                old(self).windows(),
                final(self).settings(),
                final(self).workspaces(),
                final(self).windows(),
            ),
    {
        let r = execute(&mut self.conn, sql, args);
        self.written = Ghost(self.written@.push(stmt(sql, args@)));
        self.accepted = Ghost(self.accepted@.push(r is Ok));
        r
    }

    /// Reads an integer and records the query and its answer.
    fn read_flag(&mut self, sql: &str, args: &Vec<SqlArg>) -> (r: Result<i32, rusqlite::Error>)
        ensures
            final(self).reads() == old(self).reads().push((stmt(sql, args@), ReadAnswer::Flag(r))),
            final(self).written() == old(self).written(),
            final(self).accepted() == old(self).accepted(),
            final(self).settings() == old(self).settings(),
            final(self).workspaces() == old(self).workspaces(),
            final(self).windows() == old(self).windows(),
            int_read(old(self).settings(), old(self).workspaces(), sql@, args@, r),
    {
        let r = query_int(&self.conn, sql, args);
        self.reads = Ghost(self.reads@.push((stmt(sql, args@), ReadAnswer::Flag(r))));
        r
    }

    /// Reads a text and records the query and its answer.
    fn read_text(&mut self, sql: &str, args: &Vec<SqlArg>) -> (r: Result<Option<String>, rusqlite::Error>)
        ensures
            final(self).reads() == old(self).reads().push((stmt(sql, args@), ReadAnswer::Text(r))),
            final(self).written() == old(self).written(),
            final(self).accepted() == old(self).accepted(),
            final(self).settings() == old(self).settings(),
            final(self).workspaces() == old(self).workspaces(),
            final(self).windows() == old(self).windows(),
            text_read(old(self).settings(), sql@, args@, r),
    {
        let r = query_text(&self.conn, sql, args);
        self.reads = Ghost(self.reads@.push((stmt(sql, args@), ReadAnswer::Text(r))));
        r
    }

    /// Reads a workspace's row and records the query and its answer.
    fn read_head(&mut self, sql: &str, args: &Vec<SqlArg>) -> (r: Result<Option<WorkspaceRow>, rusqlite::Error>)
        ensures
            final(self).reads() == old(self).reads().push((stmt(sql, args@), ReadAnswer::Head(r))),
            final(self).written() == old(self).written(),
            final(self).accepted() == old(self).accepted(),
            final(self).settings() == old(self).settings(),
            final(self).workspaces() == old(self).workspaces(),
            final(self).windows() == old(self).windows(),
            head_read(old(self).workspaces(), sql@, args@, r),
    {
        let r = query_workspace_row(&self.conn, sql, args);
        self.reads = Ghost(self.reads@.push((stmt(sql, args@), ReadAnswer::Head(r))));
        r
    }

    /// Reads window rows and records the query and its answer.
    fn read_rows(&mut self, sql: &str, args: &Vec<SqlArg>) -> (r: Result<Vec<WindowRow>, rusqlite::Error>)
        ensures
            final(self).reads() == old(self).reads().push((stmt(sql, args@), ReadAnswer::Rows(r))),
            final(self).written() == old(self).written(),
            final(self).accepted() == old(self).accepted(),
            final(self).settings() == old(self).settings(),
            final(self).workspaces() == old(self).workspaces(),
            final(self).windows() == old(self).windows(),
            rows_read(old(self).windows(), sql@, args@, r),
    {
        let r = query_window_rows(&self.conn, sql, args);
        self.reads = Ghost(self.reads@.push((stmt(sql, args@), ReadAnswer::Rows(r))));
        r
    }

    /// Reads a column of texts and records the query and its answer.
    fn read_texts(&mut self, sql: &str, args: &Vec<SqlArg>) -> (r: Result<Vec<String>, rusqlite::Error>)
        ensures
            final(self).reads() == old(self).reads().push((stmt(sql, args@), ReadAnswer::Texts(r))),
            final(self).written() == old(self).written(),
            final(self).accepted() == old(self).accepted(),
            final(self).settings() == old(self).settings(),
            final(self).workspaces() == old(self).workspaces(),
            final(self).windows() == old(self).windows(),
            ids_read(old(self).workspaces(), sql@, args@, r),
    {
        let r = query_texts(&self.conn, sql, args);
        self.reads = Ghost(self.reads@.push((stmt(sql, args@), ReadAnswer::Texts(r))));
        r
    }

    /// Connects to a database file at the specified path and initializes
    /// its tables.
    pub fn new(path: PathBuf) -> (r: Result<Self, DbError>)
        ensures
            r matches Ok(db) ==> {
                &&& db.written() == schema_statements() || db.written() == schema_statements().push(
                    stmt(SQL_SEED_HOTKEY, seq![]),
                )
                &&& schema_accepted(db.accepted())
            },
    {
        let conn = match open_file(&path) {
            Ok(c) => c,
            Err(e) => {
                return Err(DbError::Sqlite(e));
            },
        };
        let mut db = DatabaseManager {
            conn,
            written: Ghost(Seq::empty()),
            accepted: Ghost(Seq::empty()),
            reads: Ghost(Seq::empty()),
        };
        match db.init_tables() {
            Ok(()) => Ok(db),
            Err(e) => Err(e),
        }
    }

    /// Opens an in-memory database (for tests) and initializes its tables.
    pub fn new_in_memory() -> (r: Result<Self, DbError>)
        ensures
            r matches Ok(db) ==> {
                &&& db.written() == schema_statements() || db.written() == schema_statements().push(
                    stmt(SQL_SEED_HOTKEY, seq![]),
                )
                &&& schema_accepted(db.accepted())
            },
            r matches Ok(db) ==> (init_carried_out(db.accepted()) ==> {
                &&& db.settings() == Map::<Seq<char>, Seq<char>>::empty().insert("hotkey"@, "alt+space"@)
                &&& db.workspaces() == Map::<Seq<char>, (Seq<char>, int, int)>::empty()
                &&& db.windows() == Map::<Seq<char>, Multiset<WindowCols>>::empty()
            }),
    {
        let conn = match open_memory() {
            Ok(c) => c,
            Err(e) => {
                return Err(DbError::Sqlite(e));
            },
        };
        let mut db = DatabaseManager {
            conn,
            written: Ghost(Seq::empty()),
            accepted: Ghost(Seq::empty()),
            reads: Ghost(Seq::empty()),
        };
        match db.init_tables() {
            Ok(()) => Ok(db),
            Err(e) => Err(e),
        }
    }

    /// Turns on foreign keys, creates the tables that are missing (adding
    /// the favorite column to older workspace tables) and seeds the default
    /// hotkey when none is stored. A failure to add the column (it exists
    /// already) or to seed is not an error.
    fn init_tables(&mut self) -> (r: Result<(), DbError>)
        requires
            old(self).written() == Seq::<Statement>::empty(),
            old(self).accepted() == Seq::<bool>::empty(),
            old(self).reads() == Seq::<Read>::empty(),
        ensures
            final(self).accepted().len() == final(self).written().len(),
            r is Ok ==> {
                &&& schema_accepted(final(self).accepted())
                &&& final(self).reads().len() == 1
                &&& final(self).reads()[0].0 == stmt(SQL_HAS_HOTKEY, seq![])
                &&& final(self).reads()[0].1 matches ReadAnswer::Flag(found) && if found is Ok {
                    final(self).written() == schema_statements()
                } else {
                    final(self).written() == schema_statements().push(stmt(SQL_SEED_HOTKEY, seq![]))
                }
            },
            r is Err ==> exists|k: int| schema_stopped_at(final(self).written(), final(self).accepted(), k),
            (r is Ok && init_carried_out(final(self).accepted())) ==> set_up_from(
                old(self).settings(),
                old(self).workspaces(),
                old(self).windows(),
                final(self).settings(),
                final(self).workspaces(),
                final(self).windows(),
            ),
    {
        let none = no_args();
        let ghost s0 = self.settings();
        let ghost w0 = self.workspaces();
        let ghost n0 = self.windows();
        let ghost plan = schema_statements();
        if let Err(e) = self.write(SQL_FOREIGN_KEYS, &none) {
            proof {
                assert(self.written() =~= plan.take(1));
                assert(schema_stopped_at(self.written(), self.accepted(), 0));
            }
            return Err(DbError::Sqlite(e));
        }
        if let Err(e) = self.write(SQL_CREATE_WORKSPACES, &none) {
            proof {
                assert(self.written() =~= plan.take(2));
                assert(schema_stopped_at(self.written(), self.accepted(), 1));
            }
            return Err(DbError::Sqlite(e));
        }
        let _ = self.write(SQL_ADD_FAVORITE_COLUMN, &none);
        if let Err(e) = self.write(SQL_CREATE_WINDOW_STATES, &none) {
            proof {
                assert(self.written() =~= plan.take(4));
                assert(schema_stopped_at(self.written(), self.accepted(), 3));
            }
            return Err(DbError::Sqlite(e));
        }
        if let Err(e) = self.write(SQL_CREATE_SETTINGS, &none) {
            proof {
                assert(self.written() =~= plan.take(5));
                assert(schema_stopped_at(self.written(), self.accepted(), 4));
            }
            return Err(DbError::Sqlite(e));
        }
        proof {
            assert(self.written() =~= schema_statements());
        }
        let hotkey_row = self.read_flag(SQL_HAS_HOTKEY, &none);
        if hotkey_row.is_err() {
            let _ = self.write(SQL_SEED_HOTKEY, &none);
        }
        proof {
            if init_carried_out(self.accepted()) {
                assert(self.accepted()[0] && self.accepted()[1] && self.accepted()[2] && self.accepted()[3] && self.accepted()[4]);
            }
        }
        Ok(())
    }

    /// Stores a workspace and all its windows in one transaction, replacing
    /// what was stored under its id. It succeeds exactly when SQLite carries
    /// out every statement of `save_statements`. When one fails the rest are
    /// not handed over, and unless it was the opening of the transaction a
    /// rollback follows, so that nothing of the attempt stays.
    pub fn save_workspace(&mut self, workspace: &Workspace) -> (r: Result<(), DbError>)
        ensures
            final(self).reads() == old(self).reads(),
            r is Ok ==> {
                &&& final(self).written() == old(self).written() + save_statements(*workspace)
                &&& final(self).accepted() == old(self).accepted() + all_accepted(
                    save_statements(*workspace).len(),
                )
                &&& saved_into(
                    old(self).settings(),
                    old(self).workspaces(),
                    old(self).windows(),
                    final(self).settings(),
                    final(self).workspaces(),
                    final(self).windows(),
                    *workspace,
                )
            },
            r is Err ==> exists|k: int|
                1 <= k <= save_statements(*workspace).len() && #[trigger] save_failed_at(
                    old(self).written(),
                    old(self).accepted(),
                    final(self).written(),
                    final(self).accepted(),
                    save_statements(*workspace),
                    k,
                ),
    {
        let ghost plan = save_statements(*workspace);
        let ghost start = self.written();
        let ghost start_acc = self.accepted();
        let none = no_args();
        if let Err(e) = self.write(SQL_BEGIN, &none) {
            proof {
                assert(self.written() =~= start + plan.take(1));
                assert(self.accepted() =~= start_acc + all_accepted(0).push(false));
                assert(save_failed_at(start, start_acc, self.written(), self.accepted(), plan, 1));
            }
            return Err(DbError::Sqlite(e));
        }
        proof {
            assert(self.written() =~= start + plan.take(1));
            assert(self.accepted() =~= start_acc + all_accepted(1));
        }
        let outcome = self.write_workspace(workspace);
        match outcome {
            Ok(()) => {
                let committed = self.write(SQL_COMMIT, &none);
                proof {
                    assert(plan.take(plan.len() - 1).push(stmt(SQL_COMMIT, seq![])) =~= plan);
                    assert(self.written() =~= start + plan);
                }
                match committed {
                    Ok(_) => {
                        proof {
                            assert(self.accepted() =~= start_acc + all_accepted(plan.len()));
                        }
                        Ok(())
                    },
                    Err(e) => {
                        let ghost mid = self.written();
                        let ghost mid_acc = self.accepted();
                        let _ = self.write(SQL_ROLLBACK, &none);
                        proof {
                            let k = plan.len() as int;
                            assert(plan.take(k) =~= plan);
                            assert(mid_acc =~= start_acc + all_accepted((k - 1) as nat).push(false));
                            assert(self.accepted().drop_last() =~= mid_acc);
                            assert(self.written() =~= (start + plan.take(k)).push(stmt(SQL_ROLLBACK, seq![])));
                            assert(save_failed_at(start, start_acc, self.written(), self.accepted(), plan, k));
                        }
                        Err(DbError::Sqlite(e))
                    },
                }
            },
            Err(e) => {
                let ghost mid = self.written();
                let ghost mid_acc = self.accepted();
                let _ = self.write(SQL_ROLLBACK, &none);
                proof {
                    let k = choose|k: int|
                        2 <= k <= plan.len() - 1 && mid == start + plan.take(1) + plan.subrange(1, k)
                            && mid_acc == start_acc + all_accepted(1) + all_accepted((k - 2) as nat).push(false);
                    assert(plan.take(1) + plan.subrange(1, k) =~= plan.take(k));
                    assert(start + plan.take(1) + plan.subrange(1, k) =~= start + plan.take(k));
                    assert(all_accepted(1) + all_accepted((k - 2) as nat).push(false) =~= all_accepted((k - 1) as nat).push(false));
                    assert(start_acc + all_accepted(1) + all_accepted((k - 2) as nat).push(false) =~= start_acc + all_accepted((k - 1) as nat).push(false));
                    assert(self.accepted().drop_last() =~= mid_acc);
                    assert(self.written() =~= (start + plan.take(k)).push(stmt(SQL_ROLLBACK, seq![])));
                    assert(save_failed_at(start, start_acc, self.written(), self.accepted(), plan, k));
                }
                Err(e)
            },
        }
    }

    /// The statements of `save_workspace` inside its transaction.
    fn write_workspace(&mut self, workspace: &Workspace) -> (r: Result<(), DbError>)
        ensures
            final(self).reads() == old(self).reads(),
            r is Ok ==> {
                &&& final(self).written() == old(self).written() + save_statements(*workspace).subrange(
                    1,
                    save_statements(*workspace).len() - 1,
                )
                &&& final(self).accepted() == old(self).accepted() + all_accepted(
                    (save_statements(*workspace).len() - 2) as nat,
                )
                &&& saved_into(
                    old(self).settings(),
                    old(self).workspaces(),
                    old(self).windows(),
                    final(self).settings(),
                    final(self).workspaces(),
                    final(self).windows(),
                    *workspace,
                )
            },
            r is Err ==> exists|k: int|
                2 <= k <= save_statements(*workspace).len() - 1 && final(self).written() == old(
                    self,
                ).written() + save_statements(*workspace).subrange(1, k) && final(self).accepted()
                    == old(self).accepted() + all_accepted((k - 2) as nat).push(false),
    {
        let ghost plan = save_statements(*workspace);
        let ghost start = self.written();
        let ghost start_acc = self.accepted();
        let n = workspace.windows.len();
        proof {
            assert(plan.len() == n + 4);
            assert(plan[1] == stmt(SQL_UPSERT_WORKSPACE, workspace_params(*workspace)));
            assert(plan[2] == stmt(SQL_DELETE_WINDOWS, seq![SqlArg::Text(workspace.id)]));
        }
        let ghost s0 = self.settings();
        let ghost w0 = self.workspaces();
        let ghost n0 = self.windows();
        let ghost id = workspace.id@;
        let head = workspace_args(workspace);
        proof {
            assert(shaped(head@, seq![true, true, false, false]));
        }
        if let Err(e) = self.write(SQL_UPSERT_WORKSPACE, &head) {
            proof {
                assert(self.written() =~= start + plan.subrange(1, 2));
                assert(self.accepted() =~= start_acc + all_accepted(0).push(false));
            }
            return Err(DbError::Sqlite(e));
        }
        let id_only = vec![SqlArg::Text(workspace.id.clone())];
        proof {
            assert(id_only@ =~= seq![SqlArg::Text(workspace.id)]);
            assert(shaped(id_only@, seq![true]));
        }
        let ghost n_a = self.windows();
        let deleted = self.write(SQL_DELETE_WINDOWS, &id_only);
        proof {
            assert(self.written() =~= start + plan.subrange(1, 3));
        }
        if let Err(e) = deleted {
            proof {
                assert(self.accepted() =~= start_acc + all_accepted(1).push(false));
            }
            return Err(DbError::Sqlite(e));
        }
        proof {
            assert(self.accepted() =~= start_acc + all_accepted(2));
            assert(workspace.windows@.take(0).map_values(|w: WindowState| window_cols(w)) =~= Seq::<WindowCols>::empty());
            assert(windows_cols(workspace.windows@.take(0)) =~= Multiset::<WindowCols>::empty()) by {
                broadcast use vstd::seq_lib::group_to_multiset_ensures;
            }
            assert forall|k: Seq<char>| k != id implies #[trigger] windows_of(self.windows(), k) == windows_of(n0, k) by {
                assert(windows_of(self.windows(), k) == windows_of(n_a, k));
            }
        }
        let mut i: usize = 0;
        while i < n
            invariant
                n == workspace.windows@.len(),
                plan == save_statements(*workspace),
                start == old(self).written(),
                start_acc == old(self).accepted(),
                self.reads() == old(self).reads(),
                plan.len() == n + 4,
                i <= n,
                self.written() == start + plan.subrange(1, 3 + i),
                self.accepted() == start_acc + all_accepted((2 + i) as nat),
                id == workspace.id@,
                s0 == old(self).settings(),
                w0 == old(self).workspaces(),
                n0 == old(self).windows(),
                self.settings() == s0,
                self.workspaces() == w0.insert(id, (workspace.name@, workspace.created_at as int, flag_value(workspace.is_favorite))),
                windows_of(self.windows(), id) == windows_cols(workspace.windows@.take(i as int)),
                other_windows_kept(n0, self.windows(), id),
            decreases n - i,
        {
            let args = window_args(&workspace.id, &workspace.windows[i]);
            let ghost n_b = self.windows();
            proof {
                assert(shaped(args@, seq![true, true, false, true, false, false, false, false, false, false]));
            }
            let inserted = self.write(SQL_INSERT_WINDOW, &args);
            proof {
                assert(plan[3 + i] == stmt(SQL_INSERT_WINDOW, window_params(workspace.id, workspace.windows@[i as int])));
                assert(self.written() =~= start + plan.subrange(1, 3 + i + 1));
            }
            if let Err(e) = inserted {
                proof {
                    let k = 4 + i;
                    assert(self.accepted() =~= start_acc + all_accepted((k - 2) as nat).push(false));
                    assert(2 <= k <= plan.len() - 1 && self.written() == start + plan.subrange(1, k));
                }
                return Err(DbError::Sqlite(e));
            }
            proof {
                assert(self.accepted() =~= start_acc + all_accepted((2 + i + 1) as nat));
                let wi = workspace.windows@[i as int];
                assert(workspace.windows@.take(i + 1).map_values(|w: WindowState| window_cols(w)) =~= workspace.windows@.take(
                    i as int,
                ).map_values(|w: WindowState| window_cols(w)).push(window_cols(wi)));
                assert(windows_cols(workspace.windows@.take(i + 1)) == windows_cols(workspace.windows@.take(i as int)).insert(
                    window_cols(wi),
                )) by {
                    broadcast use vstd::seq_lib::group_to_multiset_ensures;
                }
                assert forall|k: Seq<char>| k != id implies #[trigger] windows_of(self.windows(), k) == windows_of(n0, k) by {
                    assert(windows_of(self.windows(), k) == windows_of(n_b, k));
                }
            }
            i = i + 1;
        }
        proof {
            assert(workspace.windows@.take(n as int) =~= workspace.windows@);
        }
        Ok(())
    }

    /// Retrieves a workspace by its id: its row is read, and when there is
    /// one its window rows; `None` when no workspace has that id, else the
    /// workspace the rows describe, each window carrying its row id.
    pub fn get_workspace_by_id(&mut self, id: &str) -> (r: Result<Option<Workspace>, DbError>)
        ensures
            final(self).written() == old(self).written(),
            final(self).accepted() == old(self).accepted(),
            final(self).reads().len() > old(self).reads().len(),
            final(self).reads().take(old(self).reads().len() as int) == old(self).reads(),
            final(self).settings() == old(self).settings(),
            final(self).workspaces() == old(self).workspaces(),
            final(self).windows() == old(self).windows(),
            lookup_done(id@, final(self).reads().skip(old(self).reads().len() as int), r),
            r matches Ok(None) ==> !old(self).workspaces().contains_key(id@),
            r matches Ok(Some(ws)) ==> stored_as(old(self).workspaces(), old(self).windows(), id@, ws),
            r matches Ok(Some(ws)) ==> {
                &&& ws.id@ == id@
                &&& forall|k: int| 0 <= k < ws.windows@.len() ==> (#[trigger] ws.windows@[k]).id is Some
            },
    {
        let ghost before = self.reads();
        let key = text_arg(id);
        proof {
            assert(shaped(key@, seq![true]));
        }
        let head = match self.read_head(SQL_SELECT_WORKSPACE, &key) {
            Ok(Some(h)) => h,
            Ok(None) => {
                proof {
                    assert(self.reads().skip(before.len() as int) =~= seq![self.reads().last()]);
                }
                return Ok(None);
            },
            Err(e) => {
                proof {
                    assert(self.reads().skip(before.len() as int) =~= seq![self.reads().last()]);
                }
                return Err(DbError::Sqlite(e));
            },
        };
        let ghost first = self.reads().last();
        let rows = match self.read_rows(SQL_SELECT_WINDOWS, &key) {
            Ok(rows) => rows,
            Err(e) => {
                proof {
                    assert(self.reads().skip(before.len() as int) =~= seq![first, self.reads().last()]);
                }
                return Err(DbError::Sqlite(e));
            },
        };
        let ghost head_seen = head;
        let ghost rows_seen = rows@;
        proof {
            assert(self.reads().skip(before.len() as int) =~= seq![first, self.reads().last()]);
        }
        let ws = workspace_from_rows(id, head, rows);
        proof {
            assert(describes(ws, id@, head_seen, rows_seen));
            assert(ws.windows@ =~= windows_of_rows(rows_seen));
            assert(rows_cols(rows_seen) == windows_of(self.windows(), id@));
            assert forall|k: int| 0 <= k < ws.windows@.len() implies (#[trigger] ws.windows@[k]).id is Some by {
                assert(ws.windows@[k] == window_of_row(rows_seen[k]));
            }
        }
        Ok(Some(ws))
    }

    /// All stored workspaces, newest first: the ids are read in order of
    /// creation, newest first, and each is looked up in turn; a workspace
    /// whose lookup fails or finds nothing is left out.
    pub fn list_workspaces(&mut self) -> (r: Result<Vec<Workspace>, DbError>)
        ensures
            final(self).written() == old(self).written(),
            final(self).accepted() == old(self).accepted(),
            final(self).reads().len() > old(self).reads().len(),
            final(self).reads().take(old(self).reads().len() as int) == old(self).reads(),
            final(self).settings() == old(self).settings(),
            final(self).workspaces() == old(self).workspaces(),
            final(self).windows() == old(self).windows(),
            listing_done(final(self).reads().skip(old(self).reads().len() as int), r),
            final(self).reads()[old(self).reads().len() as int].1 matches ReadAnswer::Texts(found) && ids_read(
                old(self).workspaces(),
                SQL_LIST_IDS@,
                seq![],
                found,
            ),
            r matches Ok(v) ==> forall|k: int|
                0 <= k < v@.len() ==> stored_as(old(self).workspaces(), old(self).windows(), (#[trigger] v@[k]).id@, v@[k]),
            r matches Ok(v) ==> forall|k: int|
                0 <= k < v@.len() ==> forall|m: int|
                    0 <= m < (#[trigger] v@[k]).windows@.len() ==> v@[k].windows@[m].id is Some,
    {
        let ghost before = self.reads();
        let none = no_args();
        let ids = match self.read_texts(SQL_LIST_IDS, &none) {
            Ok(ids) => ids,
            Err(e) => {
                proof {
                    assert(self.reads().skip(before.len() as int) =~= seq![self.reads().last()]);
                }
                return Err(DbError::Sqlite(e));
            },
        };
        let ghost first = self.reads().last();
        let ghost base = self.reads();
        let ghost mut parts: Seq<Seq<Read>> = Seq::empty();
        let ghost mut outs: Seq<Result<Option<Workspace>, DbError>> = Seq::empty();
        let mut workspaces: Vec<Workspace> = Vec::new();
        let mut i: usize = 0;
        proof {
            assert(joined(parts) =~= Seq::<Read>::empty());
            assert(base.skip(base.len() as int) =~= joined(parts));
        }
        while i < ids.len()
            invariant
                i <= ids@.len(),
                base.len() == before.len() + 1,
                base.take(before.len() as int) == before,
                base[before.len() as int] == first,
                self.reads().len() >= base.len(),
                self.reads().take(base.len() as int) == base,
                self.written() == old(self).written(),
                self.accepted() == old(self).accepted(),
                parts.len() == i,
                outs.len() == i,
                self.reads().skip(base.len() as int) == joined(parts),
                forall|k: int| 0 <= k < i ==> #[trigger] lookup_done(ids@[k]@, parts[k], outs[k]),
                workspaces@ == found(outs),
                self.settings() == old(self).settings(),
                self.workspaces() == old(self).workspaces(),
                self.windows() == old(self).windows(),
                forall|k: int|
                    0 <= k < workspaces@.len() ==> stored_as(
                        old(self).workspaces(),
                        old(self).windows(),
                        (#[trigger] workspaces@[k]).id@,
                        workspaces@[k],
                    ),
                forall|k: int|
                    0 <= k < workspaces@.len() ==> forall|m: int|
                        0 <= m < (#[trigger] workspaces@[k]).windows@.len() ==> workspaces@[k].windows@[m].id is Some,
            decreases ids@.len() - i,
        {
            let ghost mid = self.reads();
            let res = self.get_workspace_by_id(ids[i].as_str());
            let ghost part = self.reads().skip(mid.len() as int);
            let ghost out = res;
            proof {
                assert(self.reads() =~= mid + part);
                assert(parts.push(part).drop_last() =~= parts);
                assert(joined(parts.push(part)) == joined(parts) + part);
                assert(self.reads().take(base.len() as int) =~= base);
                assert(self.reads().skip(base.len() as int) =~= mid.skip(base.len() as int) + part);
                assert(outs.push(out).drop_last() =~= outs);
                assert(ids@[i as int]@ == ids[i as int]@);
            }
            if let Ok(Some(ws)) = res {
                workspaces.push(ws);
            }
            proof {
                parts = parts.push(part);
                outs = outs.push(out);
                assert(workspaces@ =~= found(outs));
            }
            i = i + 1;
        }
        proof {
            let log = self.reads().skip(before.len() as int);
            assert(log[0] == first);
            assert(log.drop_first() =~= self.reads().skip(base.len() as int));
            assert(looked_up_each(ids@, log.drop_first(), parts, outs));
        }
        Ok(workspaces)
    }

    /// Deletes a workspace; its windows go with it. It succeeds exactly when
    /// SQLite carries out the deletion.
    pub fn delete_workspace_by_id(&mut self, id: &str) -> (r: Result<(), DbError>)
        ensures
            exists|t: String|
                t@ == id@ && final(self).written() == old(self).written().push(
                    stmt(SQL_DELETE_WORKSPACE, seq![SqlArg::Text(t)]),
                ),
            final(self).accepted() == old(self).accepted().push(r is Ok),
            final(self).reads() == old(self).reads(),
            r is Ok ==> {
                &&& final(self).settings() == old(self).settings()
                &&& final(self).workspaces() == old(self).workspaces().remove(id@)
                &&& other_windows_kept(old(self).windows(), final(self).windows(), id@)
            },
    {
        let key = text_arg(id);
        let ghost t = match key@[0] {
            SqlArg::Text(t) => t,
            _ => arbitrary(),
        };
        proof {
            assert(key@ =~= seq![SqlArg::Text(t)]);
            assert(shaped(key@, seq![true]));
        }
        match self.write(SQL_DELETE_WORKSPACE, &key) {
            Ok(_) => Ok(()),
            Err(e) => Err(DbError::Sqlite(e)),
        }
    }

    /// Toggles the favorite flag of a workspace and returns whether it is
    /// now set: the stored flag `f` is read and overwritten with
    /// `flipped_favorite(f).0`. When the flag cannot be read (no such
    /// workspace) that error is the answer and nothing is written; else the
    /// toggle succeeds exactly when SQLite carries out the update.
    pub fn toggle_workspace_favorite(&mut self, id: &str) -> (r: Result<bool, DbError>)
        ensures
            final(self).reads().len() == old(self).reads().len() + 1,
            final(self).reads().drop_last() == old(self).reads(),
            is_lookup(final(self).reads().last().0, SQL_SELECT_FAVORITE, id@),
            match final(self).reads().last().1 {
                ReadAnswer::Flag(Err(e)) => {
                    &&& r == Err::<bool, DbError>(DbError::Sqlite(e))
                    &&& final(self).written() == old(self).written()
                    &&& final(self).accepted() == old(self).accepted()
                },
                ReadAnswer::Flag(Ok(f)) => {
                    &&& exists|t: String|
                        t@ == id@ && final(self).written() == old(self).written().push(
                            #[trigger] favorite_statement(flip_flag(f), t),
                        )
                    &&& final(self).accepted() == old(self).accepted().push(r is Ok)
                    &&& r matches Ok(b) ==> b == (f == 0)
                    &&& old(self).workspaces().contains_key(id@)
                    &&& old(self).workspaces()[id@].2 == f
                    &&& r is Ok ==> {
                        &&& final(self).settings() == old(self).settings()
                        &&& final(self).windows() == old(self).windows()
                        &&& final(self).workspaces() == old(self).workspaces().insert(
                            id@,
                            (old(self).workspaces()[id@].0, old(self).workspaces()[id@].1, flip_flag(f) as int),
                        )
                    }
                },
                _ => false,
            },
            !old(self).workspaces().contains_key(id@) ==> r is Err,
    {
        let key = text_arg(id);
        proof {
            assert(shaped(key@, seq![true]));
        }
        let current = match self.read_flag(SQL_SELECT_FAVORITE, &key) {
            Ok(v) => v,
            Err(e) => {
                return Err(DbError::Sqlite(e));
            },
        };
        let (new_state, now_set) = flipped_favorite(current);
        let t = owned(id);
        let ghost tv = t;
        let args = vec![SqlArg::Integer(new_state as i64), SqlArg::Text(t)];
        proof {
            assert(args@ =~= seq![SqlArg::Integer(new_state as i64), SqlArg::Text(tv)]);
            assert(shaped(args@, seq![false, true]));
        }
        let written = self.write(SQL_UPDATE_FAVORITE, &args);
        proof {
            assert(self.written() == old(self).written().push(favorite_statement(flip_flag(current), tv)));
        }
        match written {
            Ok(_) => Ok(now_set),
            Err(e) => Err(DbError::Sqlite(e)),
        }
    }

    /// The stored value of a setting, if there is one: the setting's row is
    /// read, and the answer is `setting_from_query` of what SQLite gave back.
    pub fn get_setting(&mut self, key: &str) -> (r: Result<Option<String>, DbError>)
        ensures
            final(self).written() == old(self).written(),
            final(self).accepted() == old(self).accepted(),
            final(self).reads().len() == old(self).reads().len() + 1,
            final(self).reads().drop_last() == old(self).reads(),
            is_lookup(final(self).reads().last().0, SQL_SELECT_SETTING, key@),
            final(self).reads().last().1 matches ReadAnswer::Text(found) && r == setting_answer(found),
            final(self).settings() == old(self).settings(),
            final(self).workspaces() == old(self).workspaces(),
            final(self).windows() == old(self).windows(),
            r matches Ok(v) ==> opt_view(v) == old(self).settings().get(key@),
    {
        let args = text_arg(key);
        proof {
            assert(shaped(args@, seq![true]));
        }
        setting_from_query(self.read_text(SQL_SELECT_SETTING, &args))
    }

    /// Stores the value of a setting, replacing an earlier one. It succeeds
    /// exactly when SQLite carries out the statement.
    pub fn set_setting(&mut self, key: &str, value: &str) -> (r: Result<(), DbError>)
        ensures
            exists|k: String, v: String|
                k@ == key@ && v@ == value@ && final(self).written() == old(self).written().push(
                    stmt(SQL_UPSERT_SETTING, seq![SqlArg::Text(k), SqlArg::Text(v)]),
                ),
            final(self).accepted() == old(self).accepted().push(r is Ok),
            final(self).reads() == old(self).reads(),
            r is Ok ==> {
                &&& final(self).settings() == old(self).settings().insert(key@, value@)
                &&& final(self).workspaces() == old(self).workspaces()
                &&& final(self).windows() == old(self).windows()
            },
    {
        let k = owned(key);
        let v = owned(value);
        let ghost kv = k;
        let ghost vv = v;
        let args = vec![SqlArg::Text(k), SqlArg::Text(v)];
        proof {
            assert(args@ =~= seq![SqlArg::Text(kv), SqlArg::Text(vv)]);
            assert(shaped(args@, seq![true, true]));
        }
        match self.write(SQL_UPSERT_SETTING, &args) {
            Ok(_) => Ok(()),
            Err(e) => Err(DbError::Sqlite(e)),
        }
    }
}

/// A save that failed at its `k`-th statement: the statements before it
/// were handed over and carried out, it was handed over and failed, and,
/// unless it opened the transaction, a rollback followed.
pub open spec fn save_failed_at(
    written0: Seq<Statement>,
    accepted0: Seq<bool>,
    written: Seq<Statement>,
    accepted: Seq<bool>,
    plan: Seq<Statement>,
    k: int,
) -> bool {
    &&& 1 <= k <= plan.len()
    &&& if k == 1 {
        &&& written == written0 + plan.take(1)
        &&& accepted == accepted0 + all_accepted(0).push(false)
    } else {
        &&& written == (written0 + plan.take(k)).push(stmt(SQL_ROLLBACK, seq![]))
        &&& accepted.drop_last() == accepted0 + all_accepted((k - 1) as nat).push(false)
        &&& accepted.len() == accepted0.len() + k + 1
    }
}

/// What a window is, apart from its row id: app, process id, title,
/// rectangle and flags.
pub open spec fn window_view(w: WindowState) -> (Seq<char>, int, Seq<char>, int, int, int, int, bool, bool) {
    (
        w.app_name@,
        w.process_id as int,
        w.window_title@,
        w.x as int,
        w.y as int,
        w.width as int,
        w.height as int,
        w.is_minimized,
        w.is_maximized,
    )
}

/// The window that stored columns describe, apart from its row id.
pub open spec fn cols_view(c: WindowCols) -> (Seq<char>, int, Seq<char>, int, int, int, int, bool, bool) {
    (c.0, c.1, c.2, c.3, c.4, c.5, c.6, c.7 != 0, c.8 != 0)
}

/// The windows of a list, apart from their row ids and their order.
pub open spec fn window_views(ws: Seq<WindowState>) -> Multiset<(Seq<char>, int, Seq<char>, int, int, int, int, bool, bool)> {
    ws.map_values(|w: WindowState| window_view(w)).to_multiset()
}

/// Two lists with the same elements, counted, keep that under any map.
pub proof fn lemma_map_keeps_multiset<A, B>(a: Seq<A>, b: Seq<A>, f: spec_fn(A) -> B)
    requires
        a.to_multiset() == b.to_multiset(),
    ensures
        a.map_values(f).to_multiset() == b.map_values(f).to_multiset(),
    decreases a.len(),
{
    broadcast use vstd::seq_lib::group_to_multiset_ensures;

    if a.len() == 0 {
        assert(a.to_multiset().len() == a.len());
        assert(b.to_multiset().len() == b.len());
        assert(b.len() == 0);
        assert(a.map_values(f) =~= Seq::<B>::empty());
        assert(b.map_values(f) =~= Seq::<B>::empty());
    } else {
        let x = a.last();
        let a1 = a.drop_last();
        assert(a =~= a1.push(x));
        assert(a.to_multiset().count(x) > 0);
        assert(b.contains(x));
        let i = choose|i: int| 0 <= i < b.len() && b[i] == x;
        let b1 = b.remove(i);
        assert(a1.to_multiset().insert(x).remove(x) =~= a1.to_multiset());
        assert(b1.to_multiset() =~= a1.to_multiset());
        lemma_map_keeps_multiset(a1, b1, f);
        assert(a.map_values(f) =~= a1.map_values(f).push(f(x)));
        let bm = b.map_values(f);
        assert(bm.remove(i) =~= b1.map_values(f));
        assert(bm[i] == f(x));
        assert(bm.to_multiset().count(f(x)) > 0);
        assert(bm.to_multiset() =~= bm.to_multiset().remove(f(x)).insert(f(x)));
    }
}

/// A read gives back what a save stored: when `save_workspace(ws)` took the
/// contents from `(s0, w0, n0)` to `(s1, w1, n1)` and a lookup of `ws.id`
/// in these contents answered `read`, then `read` has the name, time, flag
/// and windows of `ws` (each window with its row id as its id, in some
/// order), and the settings and the other workspaces are as before.
pub proof fn law_saved_workspace_reads_back(
    s0: Map<Seq<char>, Seq<char>>,
    w0: Map<Seq<char>, (Seq<char>, int, int)>,
    n0: Map<Seq<char>, Multiset<WindowCols>>,
    s1: Map<Seq<char>, Seq<char>>,
    w1: Map<Seq<char>, (Seq<char>, int, int)>,
    n1: Map<Seq<char>, Multiset<WindowCols>>,
    ws: Workspace,
    read: Workspace,
)
    requires
        saved_into(s0, w0, n0, s1, w1, n1, ws),
        stored_as(w1, n1, ws.id@, read),
    ensures
        read.id@ == ws.id@,
        read.name@ == ws.name@,
        read.created_at == ws.created_at,
        read.is_favorite == ws.is_favorite,
        window_views(read.windows@) == window_views(ws.windows@),
        s1 == s0,
        forall|k: Seq<char>| k != ws.id@ ==> w1.get(k) == w0.get(k),
        forall|k: Seq<char>| k != ws.id@ ==> #[trigger] windows_of(n1, k) == windows_of(n0, k),
{
    let rows = choose|rows: Seq<WindowRow>|
        #[trigger] rows_cols(rows) == windows_of(n1, ws.id@) && read.windows@ == windows_of_rows(rows);
    let a = rows.map_values(|x: WindowRow| row_cols(x));
    let b = ws.windows@.map_values(|w: WindowState| window_cols(w));
    assert(a.to_multiset() == b.to_multiset());
    lemma_map_keeps_multiset(a, b, |c: WindowCols| cols_view(c));
    assert(read.windows@.map_values(|w: WindowState| window_view(w)) =~= a.map_values(|c: WindowCols| cols_view(c)));
    assert(ws.windows@.map_values(|w: WindowState| window_view(w)) =~= b.map_values(|c: WindowCols| cols_view(c)));
    assert forall|k: Seq<char>| k != ws.id@ implies w1.get(k) == w0.get(k) by {
    }
}

/// A setting read gives back the last value set: when `set_setting(key,
/// value)` took the settings from `s0` to `s1`, a `get_setting(key)` that
/// succeeds answers `value`, and one of another key answers as before.
pub proof fn law_setting_reads_back(
    s0: Map<Seq<char>, Seq<char>>,
    s1: Map<Seq<char>, Seq<char>>,
    key: Seq<char>,
    value: Seq<char>,
    other: Seq<char>,
)
    requires
        s1 == s0.insert(key, value),
    ensures
        s1.get(key) == Some(value),
        other != key ==> s1.get(other) == s0.get(other),
{
}

/// Toggling a favorite twice restores the stored workspaces, when the flag
/// was stored as 0 or 1.
pub proof fn law_toggle_twice_restores(
    w0: Map<Seq<char>, (Seq<char>, int, int)>,
    w1: Map<Seq<char>, (Seq<char>, int, int)>,
    w2: Map<Seq<char>, (Seq<char>, int, int)>,
    id: Seq<char>,
)
    requires
        w0.contains_key(id),
        w0[id].2 == 0 || w0[id].2 == 1,
        w1 == w0.insert(id, (w0[id].0, w0[id].1, flip_flag(w0[id].2 as i32) as int)),
        w2 == w1.insert(id, (w1[id].0, w1[id].1, flip_flag(w1[id].2 as i32) as int)),
    ensures
        w2 == w0,
{
    assert(w2 =~= w0);
}

} // verus!
