//! The decisions of the Windows engine: which top-level windows a capture
//! keeps, which saved applications must be launched before a restore, how
//! saved windows are paired with the windows now on screen, and in which order
//! and manner each is put back. The Win32 calls that read and move windows
//! act on these decisions and are not part of the library.
use vstd::prelude::*;

use super::WindowState;
use crate::text::{
    after_last, contains_seq, contains_text, lowercase, lowercase_of, same_text,
    views,
};

verus! {

/// The Windows window engine.
pub struct WindowsWindowSpy;

impl WindowsWindowSpy {
    pub fn new() -> (r: Self) {
        WindowsWindowSpy
    }
}

// ------------------------------------------------------------------
// Names of executables
// ------------------------------------------------------------------
/// The file name at the end of a path, with both `\` and `/` as separators.
pub open spec fn basename_of(p: Seq<char>) -> Seq<char> {
    after_last(after_last(p, '\\'), '/')
}

/// The key under which windows of one application are grouped: the
/// lowercase name of its executable.
pub open spec fn app_key(app_name: Seq<char>) -> Seq<char> {
    lowercase_of(basename_of(app_name))
}

/// The file name at the end of `path` (e.g. `explorer.exe`).
pub fn get_basename(path: &str) -> (r: String)
    ensures
        r@ == basename_of(path@),
{
    let first = crate::text::after_last_char(path, '\\');
    crate::text::after_last_char(first.as_str(), '/')
}

/// A basename is its own basename.
pub proof fn lemma_basename_idempotent(p: Seq<char>)
    ensures
        basename_of(basename_of(p)) == basename_of(p),
{
    let a = after_last(p, '\\');
    let b = after_last(a, '/');
    crate::text::lemma_after_last(p, '\\');
    crate::text::lemma_after_last(a, '/');
    assert(!b.contains('\\')) by {
        if b.contains('\\') {
            let j = choose|j: int| 0 <= j < b.len() && b[j] == '\\';
            assert(a[a.len() - b.len() + j] == '\\');
        }
    }
    crate::text::lemma_after_last_absent(b, '\\');
    crate::text::lemma_after_last_absent(b, '/');
}

/// The grouping key of an application path.
pub fn app_key_of(app_name: &str) -> (r: String)
    ensures
        r@ == app_key(app_name@),
{
    let base = get_basename(app_name);
    lowercase(base.as_str())
}

/// The key of this program's own executable, from its path: the lowercase
/// basename of the lowercased path.
pub open spec fn own_key_of(exe_path: Seq<char>) -> Seq<char> {
    lowercase_of(basename_of(lowercase_of(exe_path)))
}

pub fn own_basename(exe_path: Option<&str>) -> (r: Option<String>)
    ensures
        match exe_path {
            Some(p) => r matches Some(k) && k@ == own_key_of(p@),
            None => r is None,
        },
{
    match exe_path {
        Some(p) => {
            let lower = lowercase(p);
            let base = get_basename(lower.as_str());
            Some(lowercase(base.as_str()))
        },
        None => None,
    }
}

// ------------------------------------------------------------------
// Capture
// ------------------------------------------------------------------
/// The screen rectangle of a window, as Win32 reports it.
#[derive(Clone, Copy, Debug)]
pub struct WindowRect {
    pub left: i32,
    pub top: i32,
    pub right: i32,
    pub bottom: i32,
}

/// What the desktop reports about one top-level window.
pub struct WindowProbe {
    pub visible: bool,
    /// Length of the window title, in UTF-16 units.
    pub title_len: i32,
    /// The window has the tool-window extended style.
    pub is_tool_window: bool,
    /// The window has an owner window.
    pub has_owner: bool,
    /// The window style has the minimized bit.
    pub is_minimized: bool,
    /// The window style has the maximized bit.
    pub is_maximized: bool,
    pub title: String,
    pub process_id: u32,
    /// The executable path of the owning process, or `Unknown`.
    pub app_name: String,
    pub class_name: String,
    /// The window rectangle, when it could be read.
    pub rect: Option<WindowRect>,
}

/// Desktop backgrounds, taskbars, system UI overlays and the Alt+Tab view,
/// by lowercase window class.
pub open spec fn is_shell_class(lower: Seq<char>) -> bool {
    ||| lower == "progman"@
    ||| lower == "workerw"@
    ||| lower == "shell_traywnd"@
    ||| lower == "shell_secondarytraywnd"@
    ||| lower == "windows.ui.core.corewindow"@
    ||| lower == "multitaskingviewframe"@
}

/// A window of `explorer.exe` other than a folder window.
pub open spec fn is_explorer_helper(p: WindowProbe) -> bool {
    contains_seq(lowercase_of(p.app_name@), "explorer.exe"@) && p.class_name@ != "CabinetWClass"@
}

/// The rectangle has a positive width and height.
pub open spec fn has_area(r: WindowRect) -> bool {
    r.right - r.left > 0 && r.bottom - r.top > 0
}

/// A capture keeps the window.
pub open spec fn is_captured(p: WindowProbe, skip_minimized: bool) -> bool {
    &&& p.visible
    &&& p.title_len != 0
    &&& !p.is_tool_window
    &&& !p.has_owner
    &&& !(skip_minimized && p.is_minimized)
    &&& !is_shell_class(lowercase_of(p.class_name@))
    &&& !is_explorer_helper(p)
    &&& p.rect matches Some(r) && has_area(r)
}

/// The differences of the rectangle's sides fit in an `i32`.
pub open spec fn rect_in_range(r: WindowRect) -> bool {
    i32::MIN <= r.right - r.left <= i32::MAX && i32::MIN <= r.bottom - r.top <= i32::MAX
}

fn is_shell_class_exec(lower: &str) -> (b: bool)
    ensures
        b == is_shell_class(lower@),
{
    same_text(lower, "progman") || same_text(lower, "workerw") || same_text(lower, "shell_traywnd")
        || same_text(lower, "shell_secondarytraywnd") || same_text(
        lower,
        "windows.ui.core.corewindow",
    ) || same_text(lower, "multitaskingviewframe")
}

/// Decides whether a capture keeps a window and, if it does, what it records
/// of it: visible, titled, unowned application windows that are not tool
/// windows, shell surfaces or `explorer.exe` helpers, with a positive size;
/// minimized ones only when `skip_minimized` is false.
pub fn classify_window(probe: WindowProbe, skip_minimized: bool) -> (r: Option<WindowState>)
    requires
        probe.rect matches Some(rect) ==> rect_in_range(rect),
    ensures
        r is Some <==> is_captured(probe, skip_minimized),
        ({
            let c = lowercase_of(probe.class_name@);
            c == "progman"@ || c == "workerw"@ || c == "shell_traywnd"@ || c == "shell_secondarytraywnd"@
                || c == "windows.ui.core.corewindow"@ || c == "multitaskingviewframe"@
        }) ==> r is None,
        !probe.visible ==> r is None,
        probe.title_len == 0 ==> r is None,
        probe.is_tool_window ==> r is None,
        probe.has_owner ==> r is None,
        (skip_minimized && probe.is_minimized) ==> r is None,
        (contains_seq(lowercase_of(probe.app_name@), "explorer.exe"@) && probe.class_name@ != "CabinetWClass"@)
            ==> r is None,
        probe.rect is None ==> r is None,
        (probe.rect matches Some(rc) && (rc.right - rc.left <= 0 || rc.bottom - rc.top <= 0)) ==> r is None,
        r matches Some(w) ==> {
            let rect = probe.rect->0;
            &&& w.id is None
            &&& w.app_name == probe.app_name
            &&& w.process_id == probe.process_id
            &&& w.window_title == probe.title
            &&& w.x == rect.left
            &&& w.y == rect.top
            &&& w.width == rect.right - rect.left
            &&& w.height == rect.bottom - rect.top
            &&& w.is_minimized == probe.is_minimized
            &&& w.is_maximized == probe.is_maximized
        },
{
    if !probe.visible || probe.title_len == 0 || probe.is_tool_window || probe.has_owner {
        return None;
    }
    if skip_minimized && probe.is_minimized {
        return None;
    }
    let class_lower = lowercase(probe.class_name.as_str());
    if is_shell_class_exec(class_lower.as_str()) {
        return None;
    }
    let app_lower = lowercase(probe.app_name.as_str());
    if contains_text(app_lower.as_str(), "explorer.exe") && !same_text(
        probe.class_name.as_str(),
        "CabinetWClass",
    ) {
        return None;
    }
    let rect = match probe.rect {
        Some(rect) => rect,
        None => {
            return None;
        },
    };
    let width = rect.right - rect.left;
    let height = rect.bottom - rect.top;
    if width <= 0 || height <= 0 {
        return None;
    }
    Some(
        WindowState {
            id: None,
            app_name: probe.app_name,
            process_id: probe.process_id,
            window_title: probe.title,
            x: rect.left,
            y: rect.top,
            width,
            height,
            is_minimized: probe.is_minimized,
            is_maximized: probe.is_maximized,
        },
    )
}

/// Desktop backgrounds (`Progman`, `WorkerW`), taskbars (`Shell_TrayWnd`,
/// `Shell_SecondaryTrayWnd`), system UI overlays such as Start and Search
/// (`Windows.UI.Core.CoreWindow`) and the Alt+Tab view
/// (`MultitaskingViewFrame`) are never captured, whatever else the window is,
/// the class name compared without regard to case.
pub proof fn law_shell_windows_never_captured(p: WindowProbe, skip_minimized: bool)
    requires
        ({
            let c = lowercase_of(p.class_name@);
            c == "progman"@ || c == "workerw"@ || c == "shell_traywnd"@ || c == "shell_secondarytraywnd"@
                || c == "windows.ui.core.corewindow"@ || c == "multitaskingviewframe"@
        }),
    ensures
        !is_captured(p, skip_minimized),
{
}

/// A restored window is put back in the state it was saved in: a saved
/// maximized window is maximized, a saved minimized (and not maximized) one
/// minimized, any other one restored to its rectangle.
pub proof fn law_restore_kind_follows_saved_state(w: WindowState)
    ensures
        w.is_maximized ==> kind_of(w) == RestoreKind::Maximize,
        (!w.is_maximized && w.is_minimized) ==> kind_of(w) == RestoreKind::Minimize,
        (!w.is_maximized && !w.is_minimized) ==> kind_of(w) == RestoreKind::Normal,
{
}

/// Every window a capture keeps has a positive size, and a capture that
/// skips minimized windows keeps none.
pub proof fn lemma_captured_windows_have_area(p: WindowProbe, skip_minimized: bool)
    requires
        is_captured(p, skip_minimized),
    ensures
        p.rect->0.right - p.rect->0.left > 0,
        p.rect->0.bottom - p.rect->0.top > 0,
        skip_minimized ==> !p.is_minimized,
{
}

// ------------------------------------------------------------------
// Pairing saved windows with the windows on screen
// ------------------------------------------------------------------
/// The key is this program's own (by executable name or by the
/// `context-switch` marker): such windows are never launched, paired or
/// closed.
pub open spec fn is_own_key(key: Seq<char>, own: Option<Seq<char>>) -> bool {
    (own matches Some(o) && key == o) || contains_seq(key, "context-switch"@)
}

/// A saved window takes part in a restore.
pub open spec fn saved_takes_part(w: WindowState, own: Option<Seq<char>>) -> bool {
    w.app_name@ != "Unknown"@ && !is_own_key(app_key(w.app_name@), own)
}

/// A window on screen takes part in a restore.
pub open spec fn active_takes_part(w: WindowState, our_pid: u32, own: Option<Seq<char>>) -> bool {
    w.process_id != our_pid && !is_own_key(app_key(w.app_name@), own)
}

pub open spec fn keys_of(ws: Seq<WindowState>) -> Seq<Seq<char>> {
    ws.map_values(|w: WindowState| app_key(w.app_name@))
}

pub open spec fn saved_flags(ws: Seq<WindowState>, own: Option<Seq<char>>) -> Seq<bool> {
    ws.map_values(|w: WindowState| saved_takes_part(w, own))
}

pub open spec fn active_flags(ws: Seq<WindowState>, our_pid: u32, own: Option<Seq<char>>) -> Seq<
    bool,
> {
    ws.map_values(|w: WindowState| active_takes_part(w, our_pid, own))
}

/// How many of the first `upto` entries take part and have key `k`.
pub open spec fn count_key(keys: Seq<Seq<char>>, on: Seq<bool>, k: Seq<char>, upto: int) -> nat
    decreases upto,
{
    if upto <= 0 {
        0
    } else {
        count_key(keys, on, k, upto - 1) + (if on[upto - 1] && keys[upto - 1] == k {
            1nat
        } else {
            0nat
        })
    }
}

/// The position of entry `i` among the entries of its application.
pub open spec fn rank(keys: Seq<Seq<char>>, on: Seq<bool>, i: int) -> nat {
    count_key(keys, on, keys[i], i)
}

/// How many entries of application `k` take part.
pub open spec fn total(keys: Seq<Seq<char>>, on: Seq<bool>, k: Seq<char>) -> nat {
    count_key(keys, on, k, keys.len() as int)
}

/// The saved window at `i` is missing from the screen: it takes part and
/// its application has fewer windows on screen than its position among the
/// saved windows of that application.
pub open spec fn must_launch(
    saved: Seq<WindowState>,
    active: Seq<WindowState>,
    our_pid: u32,
    own: Option<Seq<char>>,
    i: int,
) -> bool {
    let sk = keys_of(saved);
    let sf = saved_flags(saved, own);
    &&& sf[i]
    &&& rank(sk, sf, i) >= total(keys_of(active), active_flags(active, our_pid, own), sk[i])
}

/// The saved window at `i` is paired with the window on screen at `j`: same
/// application, and the same position among that application's windows.
pub open spec fn paired(
    saved: Seq<WindowState>,
    active: Seq<WindowState>,
    our_pid: u32,
    own: Option<Seq<char>>,
    i: int,
    j: int,
) -> bool {
    let sk = keys_of(saved);
    let sf = saved_flags(saved, own);
    let ak = keys_of(active);
    let af = active_flags(active, our_pid, own);
    &&& 0 <= i < saved.len()
    &&& 0 <= j < active.len()
    &&& sf[i]
    &&& af[j]
    &&& ak[j] == sk[i]
    &&& rank(ak, af, j) == rank(sk, sf, i)
}

/// The window on screen at `j` has no saved counterpart: it takes part, and
/// its application has no more saved windows than its position on screen.
pub open spec fn is_extra(
    saved: Seq<WindowState>,
    active: Seq<WindowState>,
    our_pid: u32,
    own: Option<Seq<char>>,
    j: int,
) -> bool {
    let ak = keys_of(active);
    let af = active_flags(active, our_pid, own);
    &&& af[j]
    &&& rank(ak, af, j) >= total(keys_of(saved), saved_flags(saved, own), ak[j])
}

/// The window on screen at `j` is a surplus window of an application of the
/// workspace: it is extra, and its application has saved windows. (The
/// other extra windows belong to applications outside the workspace.)
pub open spec fn is_surplus(
    saved: Seq<WindowState>,
    active: Seq<WindowState>,
    our_pid: u32,
    own: Option<Seq<char>>,
    j: int,
) -> bool {
    &&& is_extra(saved, active, our_pid, own, j)
    &&& total(keys_of(saved), saved_flags(saved, own), keys_of(active)[j]) > 0
}

pub proof fn lemma_count_monotone(keys: Seq<Seq<char>>, on: Seq<bool>, k: Seq<char>, a: int, b: int)
    requires
        0 <= a <= b <= keys.len(),
        on.len() == keys.len(),
    ensures
        count_key(keys, on, k, a) <= count_key(keys, on, k, b),
    decreases b - a,
{
    if a < b {
        lemma_count_monotone(keys, on, k, a, b - 1);
    }
}

/// Two entries of one application that take part have different positions.
pub proof fn lemma_rank_injective(keys: Seq<Seq<char>>, on: Seq<bool>, i1: int, i2: int)
    requires
        0 <= i1 < i2 < keys.len(),
        on.len() == keys.len(),
        on[i1],
        keys[i1] == keys[i2],
    ensures
        rank(keys, on, i1) < rank(keys, on, i2),
{
    lemma_count_monotone(keys, on, keys[i1], i1 + 1, i2);
}

/// An entry that takes part has a position below its application's total.
pub proof fn lemma_rank_below_total(keys: Seq<Seq<char>>, on: Seq<bool>, i: int)
    requires
        0 <= i < keys.len(),
        on.len() == keys.len(),
        on[i],
    ensures
        rank(keys, on, i) < total(keys, on, keys[i]),
{
    lemma_count_monotone(keys, on, keys[i], i + 1, keys.len() as int);
}

/// Every position below an application's total is held by one of its
/// entries.
pub proof fn lemma_rank_exists(keys: Seq<Seq<char>>, on: Seq<bool>, k: Seq<char>, r: nat, n: int)
    requires
        0 <= n <= keys.len(),
        on.len() == keys.len(),
        r < count_key(keys, on, k, n),
    ensures
        exists|i: int| 0 <= i < n && on[i] && keys[i] == k && #[trigger] count_key(keys, on, k, i) == r,
    decreases n,
{
    if r < count_key(keys, on, k, n - 1) {
        lemma_rank_exists(keys, on, k, r, n - 1);
        let i = choose|i: int| 0 <= i < n - 1 && on[i] && keys[i] == k && #[trigger] count_key(keys, on, k, i) == r;
        assert(0 <= i < n && on[i] && keys[i] == k && count_key(keys, on, k, i) == r);
    } else {
        assert(on[n - 1] && keys[n - 1] == k && count_key(keys, on, k, n - 1) == r);
    }
}

/// No window on screen is paired with two saved windows, and no saved
/// window with two windows on screen.
pub proof fn lemma_pairing_one_to_one(
    saved: Seq<WindowState>,
    active: Seq<WindowState>,
    our_pid: u32,
    own: Option<Seq<char>>,
    i1: int,
    i2: int,
    j1: int,
    j2: int,
)
    requires
        paired(saved, active, our_pid, own, i1, j1),
        paired(saved, active, our_pid, own, i2, j2),
    ensures
        (i1 == i2) <==> (j1 == j2),
{
    let sk = keys_of(saved);
    let sf = saved_flags(saved, own);
    let ak = keys_of(active);
    let af = active_flags(active, our_pid, own);
    if i1 < i2 && sk[i1] == sk[i2] {
        lemma_rank_injective(sk, sf, i1, i2);
    }
    if i2 < i1 && sk[i1] == sk[i2] {
        lemma_rank_injective(sk, sf, i2, i1);
    }
    if j1 < j2 && ak[j1] == ak[j2] {
        lemma_rank_injective(ak, af, j1, j2);
    }
    if j2 < j1 && ak[j1] == ak[j2] {
        lemma_rank_injective(ak, af, j2, j1);
    }
}

/// Every saved window that takes part is either launched or paired with a
/// window on screen, and never both.
pub proof fn lemma_saved_launched_or_paired(
    saved: Seq<WindowState>,
    active: Seq<WindowState>,
    our_pid: u32,
    own: Option<Seq<char>>,
    i: int,
)
    requires
        0 <= i < saved.len(),
        saved_takes_part(saved[i], own),
    ensures
        must_launch(saved, active, our_pid, own, i) <==> !(exists|j: int|
            paired(saved, active, our_pid, own, i, j)),
{
    let sk = keys_of(saved);
    let sf = saved_flags(saved, own);
    let ak = keys_of(active);
    let af = active_flags(active, our_pid, own);
    if !must_launch(saved, active, our_pid, own, i) {
        lemma_rank_exists(ak, af, sk[i], rank(sk, sf, i), active.len() as int);
        let j = choose|j: int|
            0 <= j < active.len() && af[j] && ak[j] == sk[i] && #[trigger] count_key(
                ak,
                af,
                sk[i],
                j,
            ) == rank(sk, sf, i);
        assert(paired(saved, active, our_pid, own, i, j));
    } else {
        assert forall|j: int| !paired(saved, active, our_pid, own, i, j) by {
            if paired(saved, active, our_pid, own, i, j) {
                lemma_rank_below_total(ak, af, j);
            }
        }
    }
}

/// Every window on screen that takes part is either paired with a saved
/// window or extra, and never both.
pub proof fn lemma_active_paired_or_extra(
    saved: Seq<WindowState>,
    active: Seq<WindowState>,
    our_pid: u32,
    own: Option<Seq<char>>,
    j: int,
)
    requires
        0 <= j < active.len(),
        active_takes_part(active[j], our_pid, own),
    ensures
        is_extra(saved, active, our_pid, own, j) <==> !(exists|i: int|
            paired(saved, active, our_pid, own, i, j)),
{
    let sk = keys_of(saved);
    let sf = saved_flags(saved, own);
    let ak = keys_of(active);
    let af = active_flags(active, our_pid, own);
    if !is_extra(saved, active, our_pid, own, j) {
        lemma_rank_exists(sk, sf, ak[j], rank(ak, af, j), saved.len() as int);
        let i = choose|i: int|
            0 <= i < saved.len() && sf[i] && sk[i] == ak[j] && #[trigger] count_key(
                sk,
                sf,
                ak[j],
                i,
            ) == rank(ak, af, j);
        assert(paired(saved, active, our_pid, own, i, j));
    } else {
        assert forall|i: int| !paired(saved, active, our_pid, own, i, j) by {
            if paired(saved, active, our_pid, own, i, j) {
                lemma_rank_below_total(sk, sf, i);
            }
        }
    }
}

// ------------------------------------------------------------------
// Executable planning
// ------------------------------------------------------------------
/// Keys and participation flags of a list of windows.
struct Grouping {
    keys: Vec<String>,
    on: Vec<bool>,
}

fn own_key_exec(key: &str, own: &Option<String>) -> (b: bool)
    ensures
        b == is_own_key(key@, match own {
            Some(o) => Some(o@),
            None => None,
        }),
{
    let mine = match own {
        Some(o) => same_text(key, o.as_str()),
        None => false,
    };
    mine || contains_text(key, "context-switch")
}

pub open spec fn own_view(own: Option<String>) -> Option<Seq<char>> {
    match own {
        Some(o) => Some(o@),
        None => None,
    }
}

fn group_saved(saved: &Vec<WindowState>, own: &Option<String>) -> (g: Grouping)
    ensures
        views(g.keys@) == keys_of(saved@),
        g.on@ == saved_flags(saved@, own_view(*own)),
        g.keys@.len() == saved@.len(),
        g.on@.len() == saved@.len(),
{
    let mut keys: Vec<String> = Vec::new();
    let mut on: Vec<bool> = Vec::new();
    let mut i: usize = 0;
    while i < saved.len()
        invariant
            i <= saved@.len(),
            views(keys@) == keys_of(saved@).take(i as int),
            on@ == saved_flags(saved@, own_view(*own)).take(i as int),
        decreases saved@.len() - i,
    {
        let w = &saved[i];
        let key = app_key_of(w.app_name.as_str());
        let flag = !same_text(w.app_name.as_str(), "Unknown") && !own_key_exec(key.as_str(), own);
        let ghost prev = views(keys@);
        keys.push(key);
        on.push(flag);
        proof {
            assert(views(keys@) =~= prev.push(app_key(w.app_name@)));
            assert(views(keys@) =~= keys_of(saved@).take(i + 1));
            assert(on@ =~= saved_flags(saved@, own_view(*own)).take(i + 1));
        }
        i = i + 1;
    }
    proof {
        assert(keys_of(saved@).take(saved@.len() as int) =~= keys_of(saved@));
        assert(saved_flags(saved@, own_view(*own)).take(saved@.len() as int) =~= saved_flags(
            saved@,
            own_view(*own),
        ));
    }
    Grouping { keys, on }
}

fn group_active(active: &Vec<WindowState>, our_pid: u32, own: &Option<String>) -> (g: Grouping)
    ensures
        views(g.keys@) == keys_of(active@),
        g.on@ == active_flags(active@, our_pid, own_view(*own)),
        g.keys@.len() == active@.len(),
        g.on@.len() == active@.len(),
{
    let mut keys: Vec<String> = Vec::new();
    let mut on: Vec<bool> = Vec::new();
    let mut i: usize = 0;
    while i < active.len()
        invariant
            i <= active@.len(),
            views(keys@) == keys_of(active@).take(i as int),
            on@ == active_flags(active@, our_pid, own_view(*own)).take(i as int),
        decreases active@.len() - i,
    {
        let w = &active[i];
        let key = app_key_of(w.app_name.as_str());
        let flag = w.process_id != our_pid && !own_key_exec(key.as_str(), own);
        let ghost prev = views(keys@);
        keys.push(key);
        on.push(flag);
        proof {
            assert(views(keys@) =~= prev.push(app_key(w.app_name@)));
            assert(views(keys@) =~= keys_of(active@).take(i + 1));
            assert(on@ =~= active_flags(active@, our_pid, own_view(*own)).take(i + 1));
        }
        i = i + 1;
    }
    proof {
        assert(keys_of(active@).take(active@.len() as int) =~= keys_of(active@));
        assert(active_flags(active@, our_pid, own_view(*own)).take(active@.len() as int)
            =~= active_flags(active@, our_pid, own_view(*own)));
    }
    Grouping { keys, on }
}

/// How many of the first `upto` entries of `g` take part and have key `k`.
fn count_in(g: &Grouping, k: &str, upto: usize) -> (n: usize)
    requires
        g.keys@.len() == g.on@.len(),
        upto <= g.keys@.len(),
    ensures
        n == count_key(views(g.keys@), g.on@, k@, upto as int),
{
    let mut n: usize = 0;
    let mut i: usize = 0;
    while i < upto
        invariant
            g.keys@.len() == g.on@.len(),
            i <= upto <= g.keys@.len(),
            n == count_key(views(g.keys@), g.on@, k@, i as int),
            n <= i,
        decreases upto - i,
    {
        proof {
            assert(views(g.keys@)[i as int] == g.keys@[i as int]@);
        }
        if g.on[i] && same_text(g.keys[i].as_str(), k) {
            n = n + 1;
        }
        i = i + 1;
    }
    n
}

/// The saved windows whose applications must be launched before a restore,
/// as positions in `saved`, in increasing order: those that take part and
/// outnumber the windows of their application now on screen.
pub fn plan_launches(
    saved: &Vec<WindowState>,
    active: &Vec<WindowState>,
    our_pid: u32,
    own: &Option<String>,
) -> (r: Vec<usize>)
    ensures
        forall|k: int| 0 <= k < r@.len() ==> r@[k] < saved@.len(),
        forall|k1: int, k2: int| 0 <= k1 < k2 < r@.len() ==> r@[k1] < r@[k2],
        forall|i: int|
            0 <= i < saved@.len() ==> (r@.contains(i as usize) <==> must_launch(
                saved@,
                active@,
                our_pid,
                own_view(*own),
                i,
            )),
{
    let gs = group_saved(saved, own);
    let ga = group_active(active, our_pid, own);
    let mut r: Vec<usize> = Vec::new();
    let mut i: usize = 0;
    while i < saved.len()
        invariant
            i <= saved@.len(),
            views(gs.keys@) == keys_of(saved@),
            gs.on@ == saved_flags(saved@, own_view(*own)),
            views(ga.keys@) == keys_of(active@),
            ga.on@ == active_flags(active@, our_pid, own_view(*own)),
            gs.keys@.len() == saved@.len(),
            gs.on@.len() == saved@.len(),
            ga.keys@.len() == active@.len(),
            ga.on@.len() == active@.len(),
            forall|k: int| 0 <= k < r@.len() ==> r@[k] < i,
            forall|k1: int, k2: int| 0 <= k1 < k2 < r@.len() ==> r@[k1] < r@[k2],
            forall|x: int|
                0 <= x < i ==> (r@.contains(x as usize) <==> must_launch(
                    saved@,
                    active@,
                    our_pid,
                    own_view(*own),
                    x,
                )),
        decreases saved@.len() - i,
    {
        proof {
            assert(views(gs.keys@)[i as int] == gs.keys@[i as int]@);
        }
        let mut launch = false;
        if gs.on[i] {
            let key = gs.keys[i].as_str();
            let position = count_in(&gs, key, i);
            let present = count_in(&ga, key, active.len());
            launch = position >= present;
        }
        assert(launch == must_launch(saved@, active@, our_pid, own_view(*own), i as int));
        let ghost old_r = r@;
        if launch {
            r.push(i);
        }
        proof {
            assert forall|x: int|
                0 <= x < i + 1 implies (r@.contains(x as usize) <==> must_launch(
                saved@,
                active@,
                our_pid,
                own_view(*own),
                x,
            )) by {
                if r@.contains(x as usize) {
                    let k = choose|k: int| 0 <= k < r@.len() && r@[k] == x as usize;
                    if k < old_r.len() {
                        assert(old_r[k] == x as usize);
                        assert(old_r.contains(x as usize));
                    }
                }
                if x < i && old_r.contains(x as usize) {
                    let k = choose|k: int| 0 <= k < old_r.len() && old_r[k] == x as usize;
                    assert(r@[k] == x as usize);
                }
                if x == i && launch {
                    assert(r@[r@.len() - 1] == i);
                }
            }
        }
        i = i + 1;
    }
    r
}

/// How a paired window is put back.
#[derive(Clone, Copy, Debug, PartialEq, Eq)]
pub enum RestoreKind {
    /// Brought back to its saved rectangle, then maximized there.
    Maximize,
    /// Minimized.
    Minimize,
    /// Restored and moved to its saved rectangle.
    Normal,
}

pub open spec fn kind_of(w: WindowState) -> RestoreKind {
    if w.is_maximized {
        RestoreKind::Maximize
    } else if w.is_minimized {
        RestoreKind::Minimize
    } else {
        RestoreKind::Normal
    }
}

/// One window to put back: the saved window at `saved`, applied to the
/// window on screen at `active`.
#[derive(Clone, Copy, Debug)]
pub struct RestoreStep {
    pub saved: usize,
    pub active: usize,
    pub kind: RestoreKind,
}

/// What a restore does to the windows on screen.
pub struct RestorePlan {
    /// The paired windows, each brought to the foreground and placed, in the
    /// reverse of their saved order so that the first saved window ends on top.
    pub steps: Vec<RestoreStep>,
    /// Windows on screen to close (positions in the active list).
    pub close: Vec<usize>,
    /// Windows on screen to minimize (positions in the active list).
    pub minimize: Vec<usize>,
}

/// The window on screen paired with saved window `i`, if there is one.
fn find_partner(gs: &Grouping, ga: &Grouping, i: usize) -> (r: Option<usize>)
    requires
        gs.keys@.len() == gs.on@.len(),
        ga.keys@.len() == ga.on@.len(),
        i < gs.keys@.len(),
        gs.on@[i as int],
    ensures
        match r {
            Some(j) => {
                &&& j < ga.keys@.len()
                &&& ga.on@[j as int]
                &&& views(ga.keys@)[j as int] == views(gs.keys@)[i as int]
                &&& rank(views(ga.keys@), ga.on@, j as int) == rank(views(gs.keys@), gs.on@, i as int)
            },
            None => total(views(ga.keys@), ga.on@, views(gs.keys@)[i as int]) <= rank(
                views(gs.keys@),
                gs.on@,
                i as int,
            ),
        },
{
    proof {
        assert(views(gs.keys@)[i as int] == gs.keys@[i as int]@);
    }
    let key = gs.keys[i].as_str();
    let position = count_in(gs, key, i);
    let mut seen: usize = 0;
    let mut j: usize = 0;
    while j < ga.keys.len()
        invariant
            ga.keys@.len() == ga.on@.len(),
            j <= ga.keys@.len(),
            key@ == views(gs.keys@)[i as int],
            position == rank(views(gs.keys@), gs.on@, i as int),
            seen == count_key(views(ga.keys@), ga.on@, key@, j as int),
            seen <= position,
        decreases ga.keys@.len() - j,
    {
        proof {
            assert(views(ga.keys@)[j as int] == ga.keys@[j as int]@);
        }
        if ga.on[j] && same_text(ga.keys[j].as_str(), key) {
            if seen == position {
                return Some(j);
            }
            seen = seen + 1;
        }
        j = j + 1;
    }
    None
}

/// A list of the positions below `j` that have property `p`, extended by
/// `j` exactly when `j` has it, is the list of the positions below `j + 1`
/// that have it.
proof fn lemma_marked_below(before: Seq<usize>, after: Seq<usize>, j: usize, marked: bool, p: spec_fn(int) -> bool)
    requires
        forall|x: int| 0 <= x < j ==> (#[trigger] before.contains(x as usize) <==> p(x)),
        forall|k: int| 0 <= k < before.len() ==> before[k] < j,
        after == if marked { before.push(j) } else { before },
        marked == p(j as int),
    ensures
        forall|x: int| 0 <= x < j + 1 ==> (#[trigger] after.contains(x as usize) <==> p(x)),
{
    assert forall|x: int| 0 <= x < j + 1 implies (#[trigger] after.contains(x as usize) <==> p(x)) by {
        if after.contains(x as usize) {
            let k = choose|k: int| 0 <= k < after.len() && after[k] == x as usize;
            if k < before.len() {
                assert(before[k] == x as usize);
                assert(before.contains(x as usize));
            }
        }
        if x < j && before.contains(x as usize) {
            let k = choose|k: int| 0 <= k < before.len() && before[k] == x as usize;
            assert(after[k] == x as usize);
        }
        if x == j && marked {
            assert(after[after.len() - 1] == j);
        }
    }
}

/// Plans a restore. Saved windows and windows on screen are grouped by
/// application; within a group the n-th saved window is paired with the n-th
/// window on screen. The paired windows are put back in reverse saved order
/// (so the focus order of the capture is rebuilt). With `close_others` every
/// unpaired window on screen is closed; without it the restore is ambient:
/// only the surplus windows of the workspace's own applications are
/// minimized, and the windows of other applications are left alone.
pub fn plan_restore(
    saved: &Vec<WindowState>,
    active: &Vec<WindowState>,
    our_pid: u32,
    own: &Option<String>,
    close_others: bool,
) -> (p: RestorePlan)
    ensures
        forall|k: int|
            0 <= k < p.steps@.len() ==> {
                let st = #[trigger] p.steps@[k];
                &&& paired(saved@, active@, our_pid, own_view(*own), st.saved as int, st.active as int)
                &&& st.kind == kind_of(saved@[st.saved as int])
            },
        forall|k: int|
            0 <= k < p.steps@.len() ==> {
                let st = #[trigger] p.steps@[k];
                let w = saved@[st.saved as int];
                &&& w.is_maximized ==> st.kind == RestoreKind::Maximize
                &&& (!w.is_maximized && w.is_minimized) ==> st.kind == RestoreKind::Minimize
                &&& (!w.is_maximized && !w.is_minimized) ==> st.kind == RestoreKind::Normal
            },
        forall|k1: int, k2: int|
            0 <= k1 < k2 < p.steps@.len() ==> p.steps@[k1].saved > p.steps@[k2].saved,
        forall|i: int, j: int|
            paired(saved@, active@, our_pid, own_view(*own), i, j) ==> exists|k: int|
                0 <= k < p.steps@.len() && #[trigger] p.steps@[k].saved == i,
        close_others ==> p.minimize@.len() == 0,
        !close_others ==> p.close@.len() == 0,
        close_others ==> forall|j: int|
            0 <= j < active@.len() ==> (p.close@.contains(j as usize) <==> is_extra(
                saved@,
                active@,
                our_pid,
                own_view(*own),
                j,
            )),
        !close_others ==> forall|j: int|
            0 <= j < active@.len() ==> (p.minimize@.contains(j as usize) <==> is_surplus(
                saved@,
                active@,
                our_pid,
                own_view(*own),
                j,
            )),
        forall|k: int| 0 <= k < p.close@.len() ==> p.close@[k] < active@.len(),
        forall|k: int| 0 <= k < p.minimize@.len() ==> p.minimize@[k] < active@.len(),
        forall|k1: int, k2: int|
            0 <= k1 < k2 < p.close@.len() ==> p.close@[k1] < p.close@[k2],
        forall|k1: int, k2: int|
            0 <= k1 < k2 < p.minimize@.len() ==> p.minimize@[k1] < p.minimize@[k2],
{
    let gs = group_saved(saved, own);
    let ga = group_active(active, our_pid, own);
    let ghost sk = keys_of(saved@);
    let ghost sf = saved_flags(saved@, own_view(*own));
    let ghost ak = keys_of(active@);
    let ghost af = active_flags(active@, our_pid, own_view(*own));
    let mut steps: Vec<RestoreStep> = Vec::new();
    let mut i: usize = saved.len();
    while i > 0
        invariant
            i <= saved@.len(),
            views(gs.keys@) == sk,
            gs.on@ == sf,
            views(ga.keys@) == ak,
            ga.on@ == af,
            gs.keys@.len() == saved@.len(),
            gs.on@.len() == saved@.len(),
            ga.keys@.len() == active@.len(),
            ga.on@.len() == active@.len(),
            sk == keys_of(saved@),
            sf == saved_flags(saved@, own_view(*own)),
            ak == keys_of(active@),
            af == active_flags(active@, our_pid, own_view(*own)),
            forall|k: int|
                0 <= k < steps@.len() ==> {
                    let st = #[trigger] steps@[k];
                    &&& i <= st.saved
                    &&& paired(saved@, active@, our_pid, own_view(*own), st.saved as int, st.active as int)
                    &&& st.kind == kind_of(saved@[st.saved as int])
                },
            forall|k1: int, k2: int|
                0 <= k1 < k2 < steps@.len() ==> steps@[k1].saved > steps@[k2].saved,
            forall|x: int, j: int|
                i <= x && paired(saved@, active@, our_pid, own_view(*own), x, j) ==> exists|k: int|
                    0 <= k < steps@.len() && #[trigger] steps@[k].saved == x,
        decreases i,
    {
        let idx = i - 1;
        let ghost old_steps = steps@;
        if gs.on[idx] {
            match find_partner(&gs, &ga, idx) {
                Some(j) => {
                    let w = &saved[idx];
                    let kind = if w.is_maximized {
                        RestoreKind::Maximize
                    } else if w.is_minimized {
                        RestoreKind::Minimize
                    } else {
                        RestoreKind::Normal
                    };
                    steps.push(RestoreStep { saved: idx, active: j, kind });
                    proof {
                        assert(paired(saved@, active@, our_pid, own_view(*own), idx as int, j as int));
                        assert(steps@[steps@.len() - 1].saved == idx);
                    }
                },
                None => {
                    proof {
                        assert forall|j: int|
                            !paired(saved@, active@, our_pid, own_view(*own), idx as int, j) by {
                            if paired(saved@, active@, our_pid, own_view(*own), idx as int, j) {
                                lemma_rank_below_total(ak, af, j);
                            }
                        }
                    }
                },
            }
        }
        proof {
            assert forall|x: int, j: int|
                idx <= x && paired(saved@, active@, our_pid, own_view(*own), x, j) implies exists|k: int|
                0 <= k < steps@.len() && #[trigger] steps@[k].saved == x by {
                if x > idx {
                    let k = choose|k: int| 0 <= k < old_steps.len() && #[trigger] old_steps[k].saved == x;
                    assert(steps@[k] == old_steps[k]);
                } else {
                    assert(steps@.len() == old_steps.len() + 1);
                    assert(steps@[steps@.len() - 1].saved == x);
                }
            }
        }
        i = idx;
    }
    let mut extra: Vec<usize> = Vec::new();
    let mut spare: Vec<usize> = Vec::new();
    let mut j: usize = 0;
    while j < active.len()
        invariant
            j <= active@.len(),
            views(gs.keys@) == keys_of(saved@),
            gs.on@ == saved_flags(saved@, own_view(*own)),
            views(ga.keys@) == keys_of(active@),
            ga.on@ == active_flags(active@, our_pid, own_view(*own)),
            gs.keys@.len() == saved@.len(),
            gs.on@.len() == saved@.len(),
            ga.keys@.len() == active@.len(),
            ga.on@.len() == active@.len(),
            forall|k: int| 0 <= k < extra@.len() ==> extra@[k] < j,
            forall|k1: int, k2: int| 0 <= k1 < k2 < extra@.len() ==> extra@[k1] < extra@[k2],
            forall|k: int| 0 <= k < spare@.len() ==> spare@[k] < j,
            forall|k1: int, k2: int| 0 <= k1 < k2 < spare@.len() ==> spare@[k1] < spare@[k2],
            forall|x: int|
                0 <= x < j ==> (spare@.contains(x as usize) <==> is_surplus(
                    saved@,
                    active@,
                    our_pid,
                    own_view(*own),
                    x,
                )),
            forall|x: int|
                0 <= x < j ==> (extra@.contains(x as usize) <==> is_extra(
                    saved@,
                    active@,
                    our_pid,
                    own_view(*own),
                    x,
                )),
        decreases active@.len() - j,
    {
        proof {
            assert(views(ga.keys@)[j as int] == ga.keys@[j as int]@);
        }
        let mut surplus = false;
        let mut of_workspace = false;
        if ga.on[j] {
            let key = ga.keys[j].as_str();
            let position = count_in(&ga, key, j);
            let wanted = count_in(&gs, key, saved.len());
            surplus = position >= wanted;
            of_workspace = wanted > 0;
        }
        assert(surplus == is_extra(saved@, active@, our_pid, own_view(*own), j as int));
        assert((surplus && of_workspace) == is_surplus(saved@, active@, our_pid, own_view(*own), j as int));
        let ghost old_extra = extra@;
        let ghost old_spare = spare@;
        if surplus {
            extra.push(j);
        }
        if surplus && of_workspace {
            spare.push(j);
        }
        proof {
            lemma_marked_below(old_spare, spare@, j, surplus && of_workspace, |x: int| is_surplus(saved@, active@, our_pid, own_view(*own), x));
            lemma_marked_below(old_extra, extra@, j, surplus, |x: int| is_extra(saved@, active@, our_pid, own_view(*own), x));
        }
        j = j + 1;
    }
    if close_others {
        RestorePlan { steps, close: extra, minimize: Vec::new() }
    } else {
        RestorePlan { steps, close: Vec::new(), minimize: spare }
    }
}

/// Where a window that is to be maximized is first placed: its saved
/// corner, pushed at least 10 pixels inside the monitor it lands on (when
/// the monitor is known), so that the system maximizes it on that monitor.
pub fn maximized_origin(x: i32, y: i32, monitor: Option<(i32, i32)>) -> (r: (i32, i32))
    requires
        monitor matches Some((left, top)) ==> left <= i32::MAX - 10 && top <= i32::MAX - 10,
    ensures
        match monitor {
            Some((left, top)) => {
                &&& r.0 == (if x >= left + 10 { x as int } else { left + 10 })
                &&& r.1 == (if y >= top + 10 { y as int } else { top + 10 })
            },
            None => r == (x, y),
        },
{
    match monitor {
        Some((left, top)) => {
            let l = left + 10;
            let t = top + 10;
            (if x >= l { x } else { l }, if y >= t { y } else { t })
        },
        None => (x, y),
    }
}

/// How many times a restore looks again for launched applications.
pub const LAUNCH_POLLS: u32 = 25;

/// The pause before each look, in milliseconds.
pub const LAUNCH_POLL_MS: u64 = 200;

/// A restore keeps waiting for launched applications while some are still
/// missing and it has looked fewer than `LAUNCH_POLLS` times.
pub fn keep_waiting(polls_done: u32, missing: &Vec<String>) -> (r: bool)
    ensures
        r == (polls_done < LAUNCH_POLLS && missing@.len() > 0),
{
    polls_done < LAUNCH_POLLS && missing.len() > 0
}

/// Whether `k` is among `keys`.
fn has_key(keys: &Vec<String>, k: &str) -> (b: bool)
    ensures
        b == views(keys@).contains(k@),
{
    let mut i: usize = 0;
    while i < keys.len()
        invariant
            i <= keys@.len(),
            forall|x: int| 0 <= x < i ==> views(keys@)[x] != k@,
        decreases keys@.len() - i,
    {
        if same_text(keys[i].as_str(), k) {
            proof {
                assert(views(keys@)[i as int] == k@);
            }
            return true;
        }
        i = i + 1;
    }
    false
}

/// What a sequence holds after a push: what it held, and the new item.
proof fn lemma_push_contains(s: Seq<Seq<char>>, x: Seq<char>)
    ensures
        forall|y: Seq<char>| #[trigger] s.push(x).contains(y) <==> (s.contains(y) || y == x),
{
    assert forall|y: Seq<char>| #[trigger] s.push(x).contains(y) <==> (s.contains(y) || y == x) by {
        if s.contains(y) {
            let m = choose|m: int| 0 <= m < s.len() && s[m] == y;
            assert(s.push(x)[m] == y);
        }
        if s.push(x).contains(y) && y != x {
            let m = choose|m: int| 0 <= m < s.push(x).len() && s.push(x)[m] == y;
            assert(s[m] == y);
        }
        if y == x {
            assert(s.push(x)[s.len() as int] == x);
        }
    }
}

/// Pushing an item a sequence does not hold keeps it free of duplicates.
proof fn lemma_push_fresh(s: Seq<Seq<char>>, x: Seq<char>)
    requires
        s.no_duplicates(),
        !s.contains(x),
    ensures
        s.push(x).no_duplicates(),
{
    let t = s.push(x);
    assert forall|a: int, b: int| 0 <= a < t.len() && 0 <= b < t.len() && a != b implies t[a] != t[b] by {
        if a == s.len() {
            assert(s.contains(s[b]));
        } else if b == s.len() {
            assert(s.contains(s[a]));
        }
    }
}

/// The applications whose windows are awaited after launching the saved
/// windows at `launches`: their keys, each once.
pub fn pending_keys(saved: &Vec<WindowState>, launches: &Vec<usize>) -> (r: Vec<String>)
    requires
        forall|k: int| 0 <= k < launches@.len() ==> launches@[k] < saved@.len(),
    ensures
        views(r@).no_duplicates(),
        forall|x: Seq<char>|
            views(r@).contains(x) <==> exists|k: int|
                0 <= k < launches@.len() && x == app_key(#[trigger] saved@[launches@[k] as int].app_name@),
{
    let mut r: Vec<String> = Vec::new();
    let mut i: usize = 0;
    while i < launches.len()
        invariant
            i <= launches@.len(),
            forall|k: int| 0 <= k < launches@.len() ==> launches@[k] < saved@.len(),
            views(r@).no_duplicates(),
            forall|x: Seq<char>|
                views(r@).contains(x) <==> exists|k: int|
                    0 <= k < i && x == app_key(#[trigger] saved@[launches@[k] as int].app_name@),
        decreases launches@.len() - i,
    {
        let key = app_key_of(saved[launches[i]].app_name.as_str());
        let ghost kv = key@;
        let ghost prev = views(r@);
        let present = has_key(&r, key.as_str());
        if !present {
            r.push(key);
        }
        proof {
            lemma_push_contains(prev, kv);
            if present {
                assert(views(r@) == prev);
            } else {
                assert(views(r@) =~= prev.push(kv));
                lemma_push_fresh(prev, kv);
            }
            assert(kv == app_key(saved@[launches@[i as int] as int].app_name@));
            assert forall|x: Seq<char>|
                views(r@).contains(x) <==> exists|k: int|
                    0 <= k < i + 1 && x == app_key(#[trigger] saved@[launches@[k] as int].app_name@) by {
                if x == kv {
                    assert(views(r@).contains(kv));
                    assert(0 <= i < i + 1 && x == app_key(saved@[launches@[i as int] as int].app_name@));
                } else if exists|k: int|
                    0 <= k < i + 1 && x == app_key(#[trigger] saved@[launches@[k] as int].app_name@) {
                    let k = choose|k: int|
                        0 <= k < i + 1 && x == app_key(#[trigger] saved@[launches@[k] as int].app_name@);
                    assert(k < i);
                }
            }
        }
        i = i + 1;
    }
    r
}

/// The awaited applications that still have no window on screen.
pub fn still_missing(pending: &Vec<String>, current: &Vec<WindowState>) -> (r: Vec<String>)
    ensures
        r@.len() <= pending@.len(),
        views(pending@).no_duplicates() ==> views(r@).no_duplicates(),
        forall|x: Seq<char>|
            views(r@).contains(x) <==> (views(pending@).contains(x) && !keys_of(current@).contains(x)),
{
    let mut present: Vec<String> = Vec::new();
    let mut j: usize = 0;
    while j < current.len()
        invariant
            j <= current@.len(),
            views(present@) == keys_of(current@).take(j as int),
        decreases current@.len() - j,
    {
        let key = app_key_of(current[j].app_name.as_str());
        let ghost prev = views(present@);
        present.push(key);
        proof {
            assert(views(present@) =~= prev.push(app_key(current@[j as int].app_name@)));
            assert(views(present@) =~= keys_of(current@).take(j + 1));
        }
        j = j + 1;
    }
    proof {
        assert(keys_of(current@).take(current@.len() as int) =~= keys_of(current@));
    }
    let mut r: Vec<String> = Vec::new();
    let mut i: usize = 0;
    while i < pending.len()
        invariant
            i <= pending@.len(),
            r@.len() <= i,
            views(present@) == keys_of(current@),
            forall|a: int, b: int|
                0 <= a < r@.len() && 0 <= b < r@.len() && a != b ==> views(pending@).no_duplicates()
                    ==> views(r@)[a] != views(r@)[b],
            forall|x: Seq<char>|
                views(r@).contains(x) <==> (views(pending@).take(i as int).contains(x)
                    && !keys_of(current@).contains(x)),
        decreases pending@.len() - i,
    {
        let k = pending[i].as_str();
        let ghost prev = views(r@);
        let ghost kv = k@;
        proof {
            assert(views(pending@)[i as int] == kv);
            assert(views(pending@).take(i + 1) =~= views(pending@).take(i as int).push(kv));
        }
        let seen = has_key(&present, k);
        if !seen {
            r.push(pending[i].clone());
        }
        proof {
            if seen {
                assert(views(r@) == prev);
            } else {
                assert(views(r@) =~= prev.push(kv));
                if views(pending@).no_duplicates() {
                    assert(!prev.contains(kv)) by {
                        if prev.contains(kv) {
                            assert(views(pending@).take(i as int).contains(kv));
                            let m = choose|m: int|
                                0 <= m < i && #[trigger] views(pending@).take(i as int)[m] == kv;
                            assert(views(pending@)[m] == views(pending@)[i as int]);
                        }
                    }
                    assert(prev.no_duplicates());
                    lemma_push_fresh(prev, kv);
                }
            }
            let t0 = views(pending@).take(i as int);
            let t1 = views(pending@).take(i + 1);
            lemma_push_contains(prev, kv);
            lemma_push_contains(t0, kv);
            assert(t1 =~= t0.push(kv));
        }
        i = i + 1;
    }
    proof {
        assert(views(pending@).take(pending@.len() as int) =~= views(pending@));
        if views(pending@).no_duplicates() {
            assert(views(r@).no_duplicates());
        }
    }
    r
}

} // verus!
