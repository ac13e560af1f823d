//! The background worker's jobs: each request of the dashboard, carried out
//! on the database and the window engine, and the reply it is answered with.
use vstd::prelude::*;

use crate::database::{
    other_windows_kept, saved_into, all_accepted, default_hotkey, favorite_statement, flip_flag, is_lookup, listing_done,
    lookup_done, save_failed_at, save_statements, stmt, DatabaseManager, DbError, ReadAnswer,
    SqlArg, Statement, SQL_DELETE_WORKSPACE, SQL_SELECT_FAVORITE,
};
use crate::engine::{WindowSpyEngine, WindowState, Workspace};
use crate::text::{concat, owned};
use std::sync::mpsc::Sender;

verus! {

#[verifier::external_type_specification]
#[verifier::external_body]
#[verifier::reject_recursive_types(T)]
pub struct ExSender<T>(std::sync::mpsc::Sender<T>);

/// Resource figures of the running daemon.
#[derive(Clone, Debug)]
pub struct DaemonStats {
    pub memory_bytes: u64,
    pub active_windows: usize,
}

/// A request to the background worker, with the channel its reply goes to.
#[allow(inconsistent_fields)]
pub enum BackgroundJob {
    Capture { id: String, name: String, responder: Sender<Result<Workspace, String>> },
    Restore { id: String, close_others: bool, responder: Sender<Result<(), String>> },
    List { responder: Sender<Result<Vec<Workspace>, String>> },
    GetStats { responder: Sender<Result<DaemonStats, String>> },
    Delete { id: String, responder: Sender<Result<(), String>> },
    Update { id: String, responder: Sender<Result<Workspace, String>> },
    ToggleFavorite { id: String, responder: Sender<Result<bool, String>> },
    GetSetting { key: String, responder: Sender<Result<Option<String>, String>> },
    SetSetting { key: String, value: String, responder: Sender<Result<(), String>> },
}

/// The state the dashboard commands share: the queue of the background
/// worker.
pub struct AppState {
    pub job_tx: Sender<BackgroundJob>,
}

/// The reply to a lookup that must find its workspace.
pub fn require_found(lookup: Result<Option<Workspace>, DbError>) -> (r: Result<Workspace, String>)
    ensures
        match lookup {
            Ok(Some(ws)) => r == Ok::<Workspace, String>(ws),
            Ok(None) => r matches Err(m) && m@ == "Workspace not found"@,
            Err(_) => r is Err,
        },
{
    match lookup {
        Ok(Some(ws)) => Ok(ws),
        Ok(None) => Err(owned("Workspace not found")),
        Err(e) => Err(e.message()),
    }
}

/// The name under which a workspace is reported: its stored name, or its id
/// when it cannot be read.
pub fn display_name(lookup: Result<Option<Workspace>, DbError>, id: &str) -> (r: String)
    ensures
        match lookup {
            Ok(Some(ws)) => r == ws.name,
            _ => r@ == id@,
        },
{
    match lookup {
        Ok(Some(ws)) => ws.name,
        _ => owned(id),
    }
}

/// The name under which a workspace is reported, given the lookup's answer.
pub open spec fn display_of(lookup: Result<Option<Workspace>, DbError>, id: Seq<char>) -> Seq<char> {
    match lookup {
        Ok(Some(ws)) => ws.name@,
        _ => id,
    }
}

/// The logs `w1`/`a1` are `w0`/`a0` after saving `ws`: on success every
/// statement of `save_statements(ws)` was handed over and carried out; on
/// failure the save stopped at a failed statement (rolled back after the
/// opening of the transaction).
pub open spec fn save_outcome(
    w0: Seq<Statement>,
    a0: Seq<bool>,
    w1: Seq<Statement>,
    a1: Seq<bool>,
    ws: Workspace,
    ok: bool,
) -> bool {
    if ok {
        &&& w1 == w0 + save_statements(ws)
        &&& a1 == a0 + all_accepted(save_statements(ws).len())
    } else {
        exists|k: int| 1 <= k <= save_statements(ws).len() && #[trigger] save_failed_at(w0, a0, w1, a1, save_statements(ws), k)
    }
}

/// What storing a capture does: a failed capture is answered with its
/// error and nothing is written; else the workspace `id` named `name`,
/// stamped `created_at`, with flag `is_favorite` and the captured windows,
/// is saved, and is the answer exactly when the save succeeds.
pub open spec fn capture_saved(
    w0: Seq<Statement>,
    a0: Seq<bool>,
    w1: Seq<Statement>,
    a1: Seq<bool>,
    captured: Result<Vec<WindowState>, String>,
    id: String,
    name: String,
    created_at: i64,
    is_favorite: bool,
    r: Result<Workspace, String>,
) -> bool {
    match captured {
        Err(e) => {
            &&& r == Err::<Workspace, String>(e)
            &&& w1 == w0
            &&& a1 == a0
        },
        Ok(wins) => {
            let ws = Workspace { id, name, created_at, is_favorite, windows: wins };
            &&& save_outcome(w0, a0, w1, a1, ws, r is Ok)
            &&& r is Ok ==> r == Ok::<Workspace, String>(ws)
        },
    }
}

/// Stores what a capture gave back as workspace `id` named `name`, stamped
/// `created_at`, with flag `is_favorite`.
pub fn save_captured(
    db: &mut DatabaseManager,
    captured: Result<Vec<WindowState>, String>,
    id: String,
    name: String,
    created_at: i64,
    is_favorite: bool,
) -> (r: Result<Workspace, String>)
    ensures
        final(db).reads() == old(db).reads(),
        capture_saved(
            old(db).written(),
            old(db).accepted(),
            final(db).written(),
            final(db).accepted(),
            captured,
            id,
            name,
            created_at,
            is_favorite,
            r,
        ),
        r matches Ok(ws) ==> saved_into(
            old(db).settings(),
            old(db).workspaces(),
            old(db).windows(),
            final(db).settings(),
            final(db).workspaces(),
            final(db).windows(),
            ws,
        ),
        captured is Err ==> {
            &&& final(db).settings() == old(db).settings()
            &&& final(db).workspaces() == old(db).workspaces()
            &&& final(db).windows() == old(db).windows()
        },
{
    let windows = match captured {
        Ok(w) => w,
        Err(e) => {
            return Err(e);
        },
    };
    let workspace = Workspace { id, name, created_at, is_favorite, windows };
    match db.save_workspace(&workspace) {
        Ok(()) => Ok(workspace),
        Err(e) => Err(e.message()),
    }
}

/// Captures the current windows as a new workspace `id` named `name`,
/// created at `created_at` and not a favorite, and stores it: the outcome is
/// that of `save_captured` for the answer the engine's capture gave.
pub fn capture_job<E: WindowSpyEngine>(
    db: &mut DatabaseManager,
    engine: &E,
    id: String,
    name: String,
    created_at: i64,
) -> (r: Result<Workspace, String>)
    ensures
        final(db).reads() == old(db).reads(),
        exists|captured: Result<Vec<WindowState>, String>|
            engine.capture_answer(captured) && #[trigger] capture_saved(
                old(db).written(),
                old(db).accepted(),
                final(db).written(),
                final(db).accepted(),
                captured,
                id,
                name,
                created_at,
                false,
                r,
            ),
        r matches Ok(ws) ==> saved_into(
            old(db).settings(),
            old(db).workspaces(),
            old(db).windows(),
            final(db).settings(),
            final(db).workspaces(),
            final(db).windows(),
            ws,
        ),
{
    let captured = engine.capture_windows();
    save_captured(db, captured, id, name, created_at, false)
}

/// Restores the stored workspace `id`: it is looked up, a missing one is
/// answered with `Workspace not found` and a failed lookup with its error;
/// else the engine restores it with `close_others`, and its answer is the
/// reply. Nothing is written.
pub fn restore_job<E: WindowSpyEngine>(
    db: &mut DatabaseManager,
    engine: &E,
    id: &str,
    close_others: bool,
) -> (r: Result<(), String>)
    ensures
        final(db).written() == old(db).written(),
        final(db).accepted() == old(db).accepted(),
        final(db).reads().len() > old(db).reads().len(),
        final(db).reads().take(old(db).reads().len() as int) == old(db).reads(),
        exists|lookup: Result<Option<Workspace>, DbError>|
            #[trigger] lookup_done(id@, final(db).reads().skip(old(db).reads().len() as int), lookup) && match lookup {
                Ok(None) => r matches Err(m) && m@ == "Workspace not found"@,
                Err(_) => r is Err,
                Ok(Some(ws)) => engine.restore_answer(ws, close_others, r),
            },
{
    let lookup = db.get_workspace_by_id(id);
    let ghost seen = lookup;
    let workspace = match require_found(lookup) {
        Ok(ws) => ws,
        Err(e) => {
            proof {
                reveal_strlit("Workspace not found");
            }
            return Err(e);
        },
    };
    proof {
        assert(lookup_done(id@, db.reads().skip(old(db).reads().len() as int), seen));
        assert(seen == Ok::<Option<Workspace>, DbError>(Some(workspace)));
    }
    engine.restore_workspace(&workspace, close_others)
}

/// All stored workspaces, newest first, as `list_workspaces` reads them;
/// each window carries the id of its stored row. Nothing is written.
pub fn list_job(db: &mut DatabaseManager) -> (r: Result<Vec<Workspace>, String>)
    ensures
        final(db).written() == old(db).written(),
        final(db).accepted() == old(db).accepted(),
        final(db).reads().len() > old(db).reads().len(),
        final(db).reads().take(old(db).reads().len() as int) == old(db).reads(),
        exists|listed: Result<Vec<Workspace>, DbError>|
            #[trigger] listing_done(final(db).reads().skip(old(db).reads().len() as int), listed) && match listed {
                Ok(v) => r == Ok::<Vec<Workspace>, String>(v),
                Err(_) => r is Err,
            },
        r matches Ok(v) ==> forall|k: int|
            0 <= k < v@.len() ==> forall|m: int|
                0 <= m < (#[trigger] v@[k]).windows@.len() ==> v@[k].windows@[m].id is Some,
{
    let listed = db.list_workspaces();
    let ghost seen = listed;
    proof {
        assert(listing_done(db.reads().skip(old(db).reads().len() as int), seen));
    }
    match listed {
        Ok(v) => Ok(v),
        Err(e) => Err(e.message()),
    }
}

/// The daemon's figures, given what a capture gave back: the memory use and
/// the number of windows captured, 0 when the capture failed.
pub fn stats_from_capture(memory_bytes: u64, captured: &Result<Vec<WindowState>, String>) -> (r: DaemonStats)
    ensures
        r.memory_bytes == memory_bytes,
        r.active_windows == match captured {
            Ok(w) => w@.len(),
            Err(_) => 0,
        },
{
    let active_windows = match captured {
        Ok(w) => w.len(),
        Err(_) => 0,
    };
    DaemonStats { memory_bytes, active_windows }
}

/// The daemon's figures: the given memory use and the number of windows a
/// capture sees now (none when the capture fails), as `stats_from_capture`
/// gives them for what the engine's capture gave back.
pub fn stats_job<E: WindowSpyEngine>(engine: &E, memory_bytes: u64) -> (r: DaemonStats)
    ensures
        r.memory_bytes == memory_bytes,
        exists|captured: Result<Vec<WindowState>, String>|
            #[trigger] engine.capture_answer(captured) && r.active_windows == match captured {
                Ok(w) => w@.len(),
                Err(_) => 0,
            },
{
    let captured = engine.capture_windows();
    stats_from_capture(memory_bytes, &captured)
}

/// Deletes the stored workspace `id` and returns the name it is reported
/// under (looked up first). It succeeds exactly when SQLite carries out the
/// deletion.
pub fn delete_job(db: &mut DatabaseManager, id: &str) -> (r: Result<String, String>)
    ensures
        exists|t: String|
            t@ == id@ && final(db).written() == old(db).written().push(
                stmt(SQL_DELETE_WORKSPACE, seq![SqlArg::Text(t)]),
            ),
        final(db).accepted() == old(db).accepted().push(r is Ok),
        final(db).reads().len() > old(db).reads().len(),
        final(db).reads().take(old(db).reads().len() as int) == old(db).reads(),
        exists|lookup: Result<Option<Workspace>, DbError>|
            #[trigger] lookup_done(id@, final(db).reads().skip(old(db).reads().len() as int), lookup) && (
            r matches Ok(n) ==> n@ == display_of(lookup, id@)),
        r is Ok ==> {
            &&& final(db).settings() == old(db).settings()
            &&& final(db).workspaces() == old(db).workspaces().remove(id@)
            &&& other_windows_kept(old(db).windows(), final(db).windows(), id@)
        },
{
    let lookup = db.get_workspace_by_id(id);
    let ghost seen = lookup;
    let name = display_name(lookup, id);
    let res = match db.delete_workspace_by_id(id) {
        Ok(()) => Ok(name),
        Err(e) => Err(e.message()),
    };
    proof {
        assert(lookup_done(id@, db.reads().skip(old(db).reads().len() as int), seen));
    }
    res
}

/// Recaptures the windows of the stored workspace `id`, keeping its name and
/// favorite flag and stamping it with `created_at`. A missing workspace is
/// answered with `Workspace not found` and a failed lookup with its error,
/// before any capture and with nothing written; else the outcome is that of
/// `save_captured` for whatever the engine's capture gave back.
pub fn update_job<E: WindowSpyEngine>(
    db: &mut DatabaseManager,
    engine: &E,
    id: String,
    created_at: i64,
) -> (r: Result<Workspace, String>)
    ensures
        final(db).reads().len() > old(db).reads().len(),
        final(db).reads().take(old(db).reads().len() as int) == old(db).reads(),
        exists|lookup: Result<Option<Workspace>, DbError>|
            #[trigger] lookup_done(id@, final(db).reads().skip(old(db).reads().len() as int), lookup) && match lookup {
                Ok(Some(existing)) => exists|captured: Result<Vec<WindowState>, String>|
                    engine.capture_answer(captured) && #[trigger] capture_saved(
                        old(db).written(),
                        old(db).accepted(),
                        final(db).written(),
                        final(db).accepted(),
                        captured,
                        id,
                        existing.name,
                        created_at,
                        existing.is_favorite,
                        r,
                    ),
                Ok(None) => {
                    &&& r matches Err(m) && m@ == "Workspace not found"@
                    &&& final(db).written() == old(db).written()
                    &&& final(db).accepted() == old(db).accepted()
                },
                Err(_) => {
                    &&& r is Err
                    &&& final(db).written() == old(db).written()
                    &&& final(db).accepted() == old(db).accepted()
                },
            },
        r matches Ok(ws) ==> saved_into(
            old(db).settings(),
            old(db).workspaces(),
            old(db).windows(),
            final(db).settings(),
            final(db).workspaces(),
            final(db).windows(),
            ws,
        ),
        !old(db).workspaces().contains_key(id@) ==> {
            &&& r is Err
            &&& final(db).settings() == old(db).settings()
            &&& final(db).workspaces() == old(db).workspaces()
            &&& final(db).windows() == old(db).windows()
        },
{
    let lookup = db.get_workspace_by_id(id.as_str());
    let ghost seen = lookup;
    let existing = match require_found(lookup) {
        Ok(ws) => ws,
        Err(e) => {
            proof {
                reveal_strlit("Workspace not found");
            }
            return Err(e);
        },
    };
    let captured = engine.capture_windows();
    let r = save_captured(db, captured, id, existing.name, created_at, existing.is_favorite);
    proof {
        assert(lookup_done(id@, db.reads().skip(old(db).reads().len() as int), seen));
    }
    r
}

/// Toggles the favorite flag of workspace `id`; returns the name it is
/// reported under (looked up first) and the reply of
/// `toggle_workspace_favorite`, its error turned into text.
pub fn toggle_favorite_job(db: &mut DatabaseManager, id: &str) -> (r: (String, Result<bool, String>))
    ensures
        final(db).reads().len() >= old(db).reads().len() + 2,
        final(db).reads().take(old(db).reads().len() as int) == old(db).reads(),
        exists|lookup: Result<Option<Workspace>, DbError>|
            #[trigger] lookup_done(
                id@,
                final(db).reads().subrange(old(db).reads().len() as int, final(db).reads().len() - 1),
                lookup,
            ) && r.0@ == display_of(lookup, id@),
        is_lookup(final(db).reads().last().0, SQL_SELECT_FAVORITE, id@),
        match final(db).reads().last().1 {
            ReadAnswer::Flag(Err(_)) => {
                &&& r.1 is Err
                &&& final(db).written() == old(db).written()
                &&& final(db).accepted() == old(db).accepted()
            },
            ReadAnswer::Flag(Ok(f)) => {
                &&& exists|t: String|
                    t@ == id@ && final(db).written() == old(db).written().push(
                        #[trigger] favorite_statement(flip_flag(f), t),
                    )
                &&& final(db).accepted() == old(db).accepted().push(r.1 is Ok)
                &&& r.1 matches Ok(b) ==> b == (f == 0)
            },
            _ => false,
        },
{
    let lookup = db.get_workspace_by_id(id);
    let ghost seen = lookup;
    let ghost mid = db.reads();
    let name = display_name(lookup, id);
    let res = match db.toggle_workspace_favorite(id) {
        Ok(b) => Ok(b),
        Err(e) => Err(e.message()),
    };
    proof {
        assert(db.reads().subrange(old(db).reads().len() as int, db.reads().len() - 1) =~= mid.skip(
            old(db).reads().len() as int,
        ));
        assert(lookup_done(
            id@,
            db.reads().subrange(old(db).reads().len() as int, db.reads().len() - 1),
            seen,
        ));
    }
    (name, res)
}

/// What a press of the hotkey or a click on the tray icon does to the
/// dashboard window.
#[derive(Clone, Copy, Debug, PartialEq, Eq, Structural)]
pub enum DashboardAction {
    /// Hide it.
    Hide,
    /// Show and focus it, above full-screen windows when `topmost`.
    Show { topmost: bool },
}

/// The dashboard toggles: a visible one is hidden, a hidden one shown
/// (kept above full-screen windows when `force_topmost`, as the hotkey asks).
pub fn toggle_action(is_visible: bool, force_topmost: bool) -> (r: DashboardAction)
    ensures
        r == (if is_visible {
            DashboardAction::Hide
        } else {
            DashboardAction::Show { topmost: force_topmost }
        }),
{
    if is_visible {
        DashboardAction::Hide
    } else {
        DashboardAction::Show { topmost: force_topmost }
    }
}

/// The setting that records that the daemon has run before.
pub const LAUNCHED_BEFORE: &'static str = "launched_before";

/// On the first launch (no `launched_before` setting stored) the dashboard
/// is shown once and the setting is stored.
pub fn is_first_launch(stored: &Option<String>) -> (r: bool)
    ensures
        r == (stored is None),
{
    stored.is_none()
}

/// The stored hotkey, or the default one when none is stored.
pub fn hotkey_or_default(stored: Option<String>) -> (r: String)
    ensures
        match stored {
            Some(h) => r == h,
            None => r@ == "alt+space"@,
        },
{
    match stored {
        Some(h) => h,
        None => default_hotkey(),
    }
}

/// The file name of a workspace's preview image.
pub fn thumbnail_file_name(id: &str) -> (r: String)
    ensures
        r@ == id@ + ".jpg"@,
{
    concat(id, ".jpg")
}

} // verus!
