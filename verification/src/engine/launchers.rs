//! How a missing application is relaunched through the game client that
//! installed it (Steam, Epic Games, Riot) or, for Discord-family apps, from
//! their newest versioned folder. These functions read manifest texts and
//! paths that the caller has fetched from disk and decide what to start; the
//! reading of folders and the spawning of processes are not part of the
//! library.
use vstd::prelude::*;

use crate::text::{
    after_first, after_first_char, chars_of, concat, find_chars, find_seq,
    first_piece, has_prefix, has_suffix, lex_less, lines, lines_of, lowercase, lowercase_of,
    normalize_path, opt_view, replace_char, replace_chars, same_text, split_char, split_on,
    starts_with, ends_with, string_of_range, text_less, trim_chars, trim_class, views, CharClass,
};

verus! {

// ------------------------------------------------------------------
// Quoted values of manifest lines
// ------------------------------------------------------------------
/// The text between the third and fourth double quote of a line (the value
/// of a `"key"  "value"` line of a Valve key-value file).
pub open spec fn quoted_value(line: Seq<char>) -> Option<Seq<char>> {
    let parts = split_char(line, '"');
    if parts.len() >= 4 {
        Some(parts[3])
    } else {
        None
    }
}

pub fn extract_quoted_value(line: &str) -> (r: Option<String>)
    ensures
        opt_view(r) == quoted_value(line@),
{
    let parts = split_on(line, '"');
    if parts.len() >= 4 {
        proof {
            assert(views(parts@)[3] == parts@[3]@);
        }
        Some(parts[3].clone())
    } else {
        None
    }
}

/// The value of a `key: value` line of a YAML file: what follows the first
/// colon, without surrounding white space and quotation marks.
pub open spec fn yaml_value(line: Seq<char>) -> Option<Seq<char>> {
    match after_first(line, ':') {
        Some(rest) => Some(trim_class(trim_class(rest, CharClass::WhiteSpace), CharClass::QuoteMark)),
        None => None,
    }
}

pub fn extract_yaml_quoted_value(line: &str) -> (r: Option<String>)
    ensures
        opt_view(r) == yaml_value(line@),
{
    match after_first_char(line, ':') {
        Some(rest) => {
            let val = trim_chars(rest.as_str(), CharClass::WhiteSpace);
            Some(trim_chars(val.as_str(), CharClass::QuoteMark))
        },
        None => None,
    }
}

// ------------------------------------------------------------------
// Steam
// ------------------------------------------------------------------
/// A path as the launchers compare it: lowercase, with backslashes.
pub open spec fn norm(p: Seq<char>) -> Seq<char> {
    replace_char(lowercase_of(p), '/', '\\')
}

/// Where a path inside a Steam library has its `steamapps` folder (taken
/// from the path as given) and the name of its game folder (lowercase).
/// Positions are counted in characters.
pub open spec fn steam_location(app: Seq<char>) -> Option<(Seq<char>, Seq<char>)> {
    let lower = norm(app);
    match find_seq(lower, "\\steamapps\\common\\"@) {
        None => None,
        Some(idx) => if idx + 10 > app.len() {
            None
        } else {
            let game = split_char(lower.skip(idx + 18), '\\')[0];
            if game.len() == 0 {
                None
            } else {
                Some((app.take(idx + 10), game))
            }
        },
    }
}

/// The `steamapps` folder and game folder name of a game installed by
/// Steam, if `app_path` lies in a Steam library.
pub fn steam_game_location(app_path: &str) -> (r: Option<(String, String)>)
    ensures
        match r {
            Some((dir, game)) => steam_location(app_path@) == Some((dir@, game@)),
            None => steam_location(app_path@) is None,
        },
{
    let lower = normalize_path(app_path);
    let lc = chars_of(lower.as_str());
    let marker = chars_of("\\steamapps\\common\\");
    proof {
        reveal_strlit("\\steamapps\\common\\");
        assert(marker@.len() == 18);
    }
    let total_len = lc.len();
    match find_chars(&lc, &marker) {
        None => None,
        Some(idx) => {
            assert(idx + 18 <= total_len);
            let app = chars_of(app_path);
            if idx + 10 > app.len() {
                return None;
            }
            let rest = string_of_range(&lc, idx + 18, lc.len());
            let game = first_piece(rest.as_str(), '\\');
            proof {
                assert(rest@ =~= lower@.skip(idx + 18));
            }
            if game.as_str().is_empty() {
                return None;
            }
            let dir = string_of_range(&app, 0, idx + 10);
            proof {
                assert(dir@ =~= app_path@.take(idx + 10));
            }
            Some((dir, game))
        },
    }
}

/// An application manifest file of a Steam library.
pub open spec fn is_steam_manifest_name(name: Seq<char>) -> bool {
    has_prefix(name, "appmanifest_"@) && has_suffix(name, ".acf"@)
}

pub fn is_steam_manifest_file(name: &str) -> (b: bool)
    ensures
        b == is_steam_manifest_name(name@),
{
    starts_with(name, "appmanifest_") && ends_with(name, ".acf")
}

/// The `appid` and `installdir` values of a Steam manifest, read line by
/// line; a later line with the key overrides an earlier one.
pub open spec fn acf_fields(ls: Seq<Seq<char>>) -> (Option<Seq<char>>, Option<Seq<char>>)
    decreases ls.len(),
{
    if ls.len() == 0 {
        (None, None)
    } else {
        let prev = acf_fields(ls.drop_last());
        let t = trim_class(ls.last(), CharClass::WhiteSpace);
        if has_prefix(t, "\"appid\""@) {
            (quoted_value(t), prev.1)
        } else if has_prefix(t, "\"installdir\""@) {
            (prev.0, quoted_value(t))
        } else {
            prev
        }
    }
}

pub fn parse_steam_manifest(content: &str) -> (r: (Option<String>, Option<String>))
    ensures
        (opt_view(r.0), opt_view(r.1)) == acf_fields(lines_of(content@)),
{
    let ls = lines(content);
    let mut appid: Option<String> = None;
    let mut installdir: Option<String> = None;
    let mut i: usize = 0;
    while i < ls.len()
        invariant
            i <= ls@.len(),
            views(ls@) == lines_of(content@),
            (opt_view(appid), opt_view(installdir)) == acf_fields(lines_of(content@).take(i as int)),
        decreases ls@.len() - i,
    {
        proof {
            assert(lines_of(content@).take(i + 1).drop_last() =~= lines_of(content@).take(i as int));
            assert(lines_of(content@).take(i + 1).last() == ls@[i as int]@);
        }
        let t = trim_chars(ls[i].as_str(), CharClass::WhiteSpace);
        if starts_with(t.as_str(), "\"appid\"") {
            appid = extract_quoted_value(t.as_str());
        } else if starts_with(t.as_str(), "\"installdir\"") {
            installdir = extract_quoted_value(t.as_str());
        }
        i = i + 1;
    }
    proof {
        assert(lines_of(content@).take(ls@.len() as int) =~= lines_of(content@));
    }
    (appid, installdir)
}

/// The URI that starts a Steam game.
pub open spec fn steam_uri(appid: Seq<char>) -> Seq<char> {
    "steam://rungameid/"@ + appid
}

/// The launch URI for the game of `game_dir_name`, if the manifest `content`
/// describes it: the manifest names both an app id and an install folder,
/// and the folder, lowercased, is the game folder.
pub fn steam_launch_uri(content: &str, game_dir_name: &str) -> (r: Option<String>)
    ensures
        match acf_fields(lines_of(content@)) {
            (Some(id), Some(dir)) => if lowercase_of(dir) == game_dir_name@ {
                r matches Some(u) && u@ == steam_uri(id)
            } else {
                r is None
            },
            _ => r is None,
        },
{
    let (appid, installdir) = parse_steam_manifest(content);
    match (appid, installdir) {
        (Some(id), Some(dir)) => {
            let lower = lowercase(dir.as_str());
            if same_text(lower.as_str(), game_dir_name) {
                Some(concat("steam://rungameid/", id.as_str()))
            } else {
                None
            }
        },
        _ => None,
    }
}

// ------------------------------------------------------------------
// Epic Games
// ------------------------------------------------------------------
/// The fields of an Epic Games launcher manifest (`.item` file) that a
/// launch needs.
pub struct EpicManifest {
    pub install_location: String,
    pub launch_executable: String,
    pub catalog_namespace: Option<String>,
    pub catalog_item_id: Option<String>,
    pub app_name: String,
}

/// The normalized install folder and launch executable of a manifest.
pub fn epic_install_paths(manifest: &EpicManifest) -> (r: (String, String))
    ensures
        r.0@ == norm(manifest.install_location@),
        r.1@ == norm(manifest.launch_executable@),
{
    (normalize_path(manifest.install_location.as_str()), normalize_path(
        manifest.launch_executable.as_str(),
    ))
}

/// A running executable belongs to an Epic manifest when its normalized path
/// is the install folder joined with the launch executable, or starts with
/// the install folder and ends with the executable.
pub fn epic_manifest_matches(
    path_norm: &str,
    install_norm: &str,
    exec_norm: &str,
    joined_lower: &str,
) -> (b: bool)
    ensures
        b == (path_norm@ == joined_lower@ || (has_prefix(path_norm@, install_norm@) && has_suffix(
            path_norm@,
            exec_norm@,
        ))),
{
    same_text(path_norm, joined_lower) || (starts_with(path_norm, install_norm) && ends_with(
        path_norm,
        exec_norm,
    ))
}

/// A path `rel` appended to `base` in the plain case: `base` is not empty,
/// neither starts nor ends with a separator and does not end with `:` (so it
/// is no bare drive such as `C:`, to which Windows joins without a
/// separator), and `rel` is not empty, does not start with a separator and
/// names no drive (no `:`).
pub open spec fn plain_join(base: Seq<char>, rel: Seq<char>) -> bool {
    &&& base.len() > 0
    &&& base[0] != '\\' && base[0] != '/'
    &&& base.last() != '\\' && base.last() != '/'
    &&& base.last() != ':'
    &&& rel.len() > 0
    &&& rel[0] != '\\' && rel[0] != '/'
    &&& !rel.contains(':')
}

/// `joined` is `rel` appended to `base` as a path, as far as that is the same
/// on every platform: in the plain case, `base`, a separator (`\\` or `/`,
/// the platform's) and `rel`.
pub open spec fn joins_as(base: Seq<char>, rel: Seq<char>, joined: Seq<char>) -> bool {
    plain_join(base, rel) ==> exists|sep: char|
        (sep == '\\' || sep == '/') && joined == base + seq![sep] + rel
}

/// `PathBuf::from(base)`, then `PathBuf::push(rel)`, read back as text.
/// Claimed, as `push`'s documentation gives it on every platform: in the
/// plain case the result is `base`, the platform's separator (`\` or `/`)
/// and `rel`. The other cases (absolute or drive-prefixed `rel`) depend on
/// the platform and are left unsaid.
#[verifier::external_body]
fn push_path(base: &str, rel: &str) -> (r: String)
    ensures
        joins_as(base@, rel@, r@),
{
    let mut p = std::path::PathBuf::from(base);
    p.push(rel);
    p.to_string_lossy().to_string()
}

/// Whether a running executable belongs to an Epic manifest: the install
/// folder and the launch executable are joined as a path, and the joined
/// path, in lowercase, is handed to `epic_manifest_matches`.
pub fn epic_matches(path_norm: &str, install_norm: &str, exec_norm: &str) -> (b: bool)
    ensures
        exists|joined: Seq<char>|
            #[trigger] joins_as(install_norm@, exec_norm@, joined) && b == (path_norm@ == lowercase_of(joined)
                || (has_prefix(path_norm@, install_norm@) && has_suffix(path_norm@, exec_norm@))),
{
    let joined = push_path(install_norm, exec_norm);
    let lower = lowercase(joined.as_str());
    epic_manifest_matches(path_norm, install_norm, exec_norm, lower.as_str())
}

/// The URI by which the Epic Games launcher starts a game.
pub open spec fn epic_uri(
    namespace: Option<Seq<char>>,
    item: Option<Seq<char>>,
    app_name: Seq<char>,
) -> Seq<char> {
    match (namespace, item) {
        (Some(ns), Some(id)) => "com.epicgames.launcher://apps/"@ + ns + "%3A"@ + id + "%3A"@
            + app_name + "?action=launch&silent=true"@,
        _ => "com.epicgames.launcher://apps/"@ + app_name + "?action=launch&silent=true"@,
    }
}

pub fn epic_launch_uri(manifest: &EpicManifest) -> (r: String)
    ensures
        r@ == epic_uri(
            opt_view(manifest.catalog_namespace),
            opt_view(manifest.catalog_item_id),
            manifest.app_name@,
        ),
{
    match (&manifest.catalog_namespace, &manifest.catalog_item_id) {
        (Some(ns), Some(id)) => {
            let a = concat("com.epicgames.launcher://apps/", ns.as_str());
            let b = concat(a.as_str(), "%3A");
            let c = concat(b.as_str(), id.as_str());
            let d = concat(c.as_str(), "%3A");
            let e = concat(d.as_str(), manifest.app_name.as_str());
            concat(e.as_str(), "?action=launch&silent=true")
        },
        _ => {
            let a = concat("com.epicgames.launcher://apps/", manifest.app_name.as_str());
            concat(a.as_str(), "?action=launch&silent=true")
        },
    }
}

// ------------------------------------------------------------------
// Riot Games
// ------------------------------------------------------------------
/// The Riot client executable: the `rc_default` entry of the client's
/// install list with backslashes, or its standard location.
pub fn riot_client_path(rc_default: Option<&str>) -> (r: String)
    ensures
        rc_default matches Some(p) ==> r@ == replace_char(p@, '/', '\\'),
        rc_default is None ==> r@ == "C:\\Riot Games\\Riot Client\\RiotClientServices.exe"@,
{
    match rc_default {
        Some(p) => {
            replace_chars(p, '/', '\\')
        },
        None => {
            proof {
                reveal_strlit("");
            }
            concat("C:\\Riot Games\\Riot Client\\RiotClientServices.exe", "")
        },
    }
}

/// The text of the top-level member `key` of the JSON document `json`: its
/// value when the document parses, is an object with that member, and the
/// member is a string; else nothing.
pub uninterp spec fn json_text_member(json: Seq<char>, key: Seq<char>) -> Option<Seq<char>>;

/// Parses `json` with `serde_json::from_str` into a `serde_json::Value` and
/// reads its member `key` with `Value::get` and `Value::as_str`. Claimed: the
/// result is `json_text_member` of the text and the key (the three calls
/// depend on nothing else); what that is, is serde_json's parsing and is not
/// spelled out.
#[verifier::external_body]
fn json_member_text(json: &str, key: &str) -> (r: Option<String>)
    ensures
        opt_view(r) == json_text_member(json@, key@),
{
    match serde_json::from_str::<serde_json::Value>(json) {
        Ok(v) => v.get(key).and_then(|m| m.as_str()).map(|t| t.to_string()),
        Err(_) => None,
    }
}

/// The Riot client executable, given the text of the client's install list
/// (`RiotClientInstalls.json`) when it could be read: its `rc_default`
/// member with backslashes, else the standard location.
pub fn riot_client_from_installs(installs: Option<&str>) -> (r: String)
    ensures
        r@ == match installs {
            Some(j) => match json_text_member(j@, "rc_default"@) {
                Some(p) => replace_char(p, '/', '\\'),
                None => "C:\\Riot Games\\Riot Client\\RiotClientServices.exe"@,
            },
            None => "C:\\Riot Games\\Riot Client\\RiotClientServices.exe"@,
        },
{
    match installs {
        Some(j) => {
            let entry = json_member_text(j, "rc_default");
            match entry {
                Some(p) => riot_client_path(Some(p.as_str())),
                None => riot_client_path(None),
            }
        },
        None => riot_client_path(None),
    }
}

/// The product and patchline of a Riot metadata folder named
/// `product.patchline[...]`.
pub fn riot_product(dir_name: &str) -> (r: Option<(String, String)>)
    ensures
        match r {
            Some((product, patchline)) => split_char(dir_name@, '.').len() >= 2 && product@
                == split_char(dir_name@, '.')[0] && patchline@ == split_char(dir_name@, '.')[1],
            None => split_char(dir_name@, '.').len() < 2,
        },
{
    let parts = split_on(dir_name, '.');
    if parts.len() >= 2 {
        proof {
            assert(views(parts@)[0] == parts@[0]@);
            assert(views(parts@)[1] == parts@[1]@);
        }
        Some((parts[0].clone(), parts[1].clone()))
    } else {
        None
    }
}

/// The settings file inside a Riot metadata folder.
pub fn riot_settings_file_name(dir_name: &str) -> (r: String)
    ensures
        r@ == dir_name@ + ".product_settings.yaml"@,
{
    concat(dir_name, ".product_settings.yaml")
}

/// A settings line names an install folder that contains the path.
pub open spec fn riot_line_matches(line: Seq<char>, app_norm: Seq<char>) -> bool {
    let t = trim_class(line, CharClass::WhiteSpace);
    &&& has_prefix(t, "product_install_full_path:"@)
    &&& yaml_value(t) matches Some(v) && has_prefix(app_norm, norm(v))
}

/// Whether a Riot product settings file installs the program at the
/// normalized path `app_norm`.
pub fn riot_install_matches(content: &str, app_norm: &str) -> (b: bool)
    ensures
        b == exists|i: int|
            0 <= i < lines_of(content@).len() && riot_line_matches(
                #[trigger] lines_of(content@)[i],
                app_norm@,
            ),
{
    let ls = lines(content);
    let mut i: usize = 0;
    while i < ls.len()
        invariant
            i <= ls@.len(),
            views(ls@) == lines_of(content@),
            forall|j: int| 0 <= j < i ==> !riot_line_matches(#[trigger] lines_of(content@)[j], app_norm@),
        decreases ls@.len() - i,
    {
        proof {
            assert(lines_of(content@)[i as int] == ls@[i as int]@);
        }
        let t = trim_chars(ls[i].as_str(), CharClass::WhiteSpace);
        if starts_with(t.as_str(), "product_install_full_path:") {
            match extract_yaml_quoted_value(t.as_str()) {
                Some(v) => {
                    let vn = normalize_path(v.as_str());
                    if starts_with(app_norm, vn.as_str()) {
                        return true;
                    }
                },
                None => {},
            }
        }
        i = i + 1;
    }
    false
}

/// The Riot client arguments that launch a product on a patchline.
pub fn riot_launch_args(product: &str, patchline: &str) -> (r: (String, String))
    ensures
        r.0@ == "--launch-product="@ + product@,
        r.1@ == "--launch-patchline="@ + patchline@,
{
    (concat("--launch-product=", product), concat("--launch-patchline=", patchline))
}

// ------------------------------------------------------------------
// Discord
// ------------------------------------------------------------------
/// The install root of a Discord-family app: the path up to the first
/// backslash after `\discord` (positions counted in characters).
pub open spec fn discord_root(app: Seq<char>) -> Option<Seq<char>> {
    let lower = norm(app);
    match find_seq(lower, "\\discord"@) {
        None => None,
        Some(idx) => match find_seq(lower.skip(idx + 8), "\\"@) {
            None => None,
            Some(slash) => if idx + 8 + slash > app.len() {
                None
            } else {
                Some(app.take(idx + 8 + slash))
            },
        },
    }
}

pub fn discord_install_root(app_path: &str) -> (r: Option<String>)
    ensures
        opt_view(r) == discord_root(app_path@),
{
    let lower = normalize_path(app_path);
    let lc = chars_of(lower.as_str());
    let marker = chars_of("\\discord");
    let slash = chars_of("\\");
    proof {
        reveal_strlit("\\discord");
        assert(marker@.len() == 8);
    }
    let total_len = lc.len();
    match find_chars(&lc, &marker) {
        None => None,
        Some(idx) => {
            assert(idx + 8 <= total_len);
            let rest = string_of_range(&lc, idx + 8, lc.len());
            let rc = chars_of(rest.as_str());
            proof {
                assert(rc@ =~= lower@.skip(idx + 8));
            }
            match find_chars(&rc, &slash) {
                None => None,
                Some(pos) => {
                    let app = chars_of(app_path);
                    if idx + 8 + pos > app.len() {
                        return None;
                    }
                    let root = string_of_range(&app, 0, idx + 8 + pos);
                    proof {
                        assert(root@ =~= app_path@.take(idx + 8 + pos));
                    }
                    Some(root)
                },
            }
        },
    }
}

/// A versioned app folder of a Discord install (`app-1.0.9245`).
pub open spec fn is_app_dir(name: Seq<char>) -> bool {
    has_prefix(name, "app-"@)
}

/// A version component without its leading zeros (`0045` is `45`, `0` is
/// the empty text).
pub open spec fn strip_zeros(s: Seq<char>) -> Seq<char>
    decreases s.len(),
{
    if s.len() > 0 && s[0] == '0' {
        strip_zeros(s.drop_first())
    } else {
        s
    }
}

/// The version of an app folder (`app-1.0.9245` gives `1`, `0`, `9245`), as
/// its dot-separated components without leading zeros.
pub open spec fn version_key(name: Seq<char>) -> Seq<Seq<char>> {
    split_char(name.skip(4), '.').map_values(|c: Seq<char>| strip_zeros(c))
}

/// The order of two version components without leading zeros: the shorter
/// is the smaller, and components of one length compare character by
/// character. For digits this is the order of the numbers they write.
pub open spec fn component_less(a: Seq<char>, b: Seq<char>) -> bool {
    a.len() < b.len() || (a.len() == b.len() && lex_less(a, b))
}

/// The order of versions: component by component, the first component that
/// differs decides, and a version that is a proper prefix of another is the
/// older one.
pub open spec fn version_less(a: Seq<Seq<char>>, b: Seq<Seq<char>>) -> bool
    decreases a.len(),
{
    if a.len() == 0 {
        b.len() > 0
    } else if b.len() == 0 {
        false
    } else if component_less(a[0], b[0]) {
        true
    } else if a[0] == b[0] {
        version_less(a.drop_first(), b.drop_first())
    } else {
        false
    }
}

/// App folder `a` holds an older version than app folder `b`.
pub open spec fn older_app_dir(a: Seq<char>, b: Seq<char>) -> bool {
    version_less(version_key(a), version_key(b))
}

pub proof fn lemma_component_less_irreflexive(a: Seq<char>)
    ensures
        !component_less(a, a),
{
    lemma_lex_less_irreflexive(a);
}

pub proof fn lemma_component_less_trans(a: Seq<char>, b: Seq<char>, c: Seq<char>)
    requires
        component_less(a, b),
        component_less(b, c),
    ensures
        component_less(a, c),
{
    if a.len() == b.len() && b.len() == c.len() {
        if !lex_less(a, c) {
            lemma_lex_less_trans_not(a, b, c);
        }
    }
}

/// No version is older than itself.
pub proof fn lemma_version_less_irreflexive(a: Seq<Seq<char>>)
    ensures
        !version_less(a, a),
    decreases a.len(),
{
    if a.len() > 0 {
        lemma_component_less_irreflexive(a[0]);
        lemma_version_less_irreflexive(a.drop_first());
    }
}

/// Being older is transitive.
pub proof fn lemma_version_less_trans(a: Seq<Seq<char>>, b: Seq<Seq<char>>, c: Seq<Seq<char>>)
    requires
        version_less(a, b),
        version_less(b, c),
    ensures
        version_less(a, c),
    decreases a.len(),
{
    if a.len() > 0 {
        if component_less(a[0], b[0]) && component_less(b[0], c[0]) {
            lemma_component_less_trans(a[0], b[0], c[0]);
        } else if a[0] == b[0] && b[0] == c[0] {
            lemma_version_less_trans(a.drop_first(), b.drop_first(), c.drop_first());
        }
    }
}

/// `s` without its leading zeros.
fn strip_leading_zeros(s: &str) -> (r: String)
    ensures
        r@ == strip_zeros(s@),
{
    let cs = chars_of(s);
    let mut k: usize = 0;
    proof {
        assert(s@.skip(0) =~= s@);
    }
    while k < cs.len() && cs[k] == '0'
        invariant
            cs@ == s@,
            k <= cs@.len(),
            strip_zeros(s@) == strip_zeros(s@.skip(k as int)),
        decreases cs@.len() - k,
    {
        proof {
            assert(s@.skip(k as int).drop_first() =~= s@.skip(k + 1));
        }
        k = k + 1;
    }
    let r = string_of_range(&cs, k, cs.len());
    proof {
        assert(r@ =~= s@.skip(k as int));
    }
    r
}

/// The version components of app folder `name`.
fn version_keys(name: &str) -> (r: Vec<String>)
    requires
        is_app_dir(name@),
    ensures
        views(r@) == version_key(name@),
{
    proof {
        reveal_strlit("app-");
    }
    let cs = chars_of(name);
    let rest = string_of_range(&cs, 4, cs.len());
    proof {
        assert(rest@ =~= name@.skip(4));
    }
    let parts = split_on(rest.as_str(), '.');
    let ghost comps = split_char(name@.skip(4), '.');
    let mut r: Vec<String> = Vec::new();
    let mut i: usize = 0;
    while i < parts.len()
        invariant
            views(parts@) == comps,
            comps == split_char(name@.skip(4), '.'),
            i <= parts@.len(),
            views(r@) == comps.take(i as int).map_values(|c: Seq<char>| strip_zeros(c)),
        decreases parts@.len() - i,
    {
        proof {
            assert(views(parts@)[i as int] == parts@[i as int]@);
        }
        let k = strip_leading_zeros(parts[i].as_str());
        let ghost old_r = r@;
        r.push(k);
        proof {
            assert(views(r@) =~= views(old_r).push(k@));
            assert(comps.take(i + 1) =~= comps.take(i as int).push(comps[i as int]));
            assert(views(r@) =~= comps.take(i + 1).map_values(|c: Seq<char>| strip_zeros(c)));
        }
        i = i + 1;
    }
    proof {
        assert(comps.take(parts@.len() as int) =~= comps);
    }
    r
}

fn component_less_exec(a: &str, b: &str) -> (r: bool)
    ensures
        r == component_less(a@, b@),
{
    let la = chars_of(a).len();
    let lb = chars_of(b).len();
    la < lb || (la == lb && text_less(a, b))
}

fn version_less_exec(a: &Vec<String>, b: &Vec<String>) -> (r: bool)
    ensures
        r == version_less(views(a@), views(b@)),
{
    let ghost va = views(a@);
    let ghost vb = views(b@);
    let mut i: usize = 0;
    proof {
        assert(va.skip(0) =~= va);
        assert(vb.skip(0) =~= vb);
    }
    loop
        invariant
            va == views(a@),
            vb == views(b@),
            i <= a@.len(),
            i <= b@.len(),
            version_less(va, vb) == version_less(va.skip(i as int), vb.skip(i as int)),
        decreases a@.len() - i,
    {
        if i == a.len() {
            return i < b.len();
        }
        if i == b.len() {
            return false;
        }
        proof {
            assert(va[i as int] == a@[i as int]@);
            assert(vb[i as int] == b@[i as int]@);
            assert(va.skip(i as int)[0] == va[i as int]);
            assert(vb.skip(i as int)[0] == vb[i as int]);
        }
        if component_less_exec(a[i].as_str(), b[i].as_str()) {
            return true;
        }
        if !same_text(a[i].as_str(), b[i].as_str()) {
            return false;
        }
        proof {
            assert(va.skip(i as int).drop_first() =~= va.skip(i + 1));
            assert(vb.skip(i as int).drop_first() =~= vb.skip(i + 1));
        }
        i = i + 1;
    }
}

/// The newest versioned app folder among the folders of a Discord install:
/// the `app-` folder of the highest version, its components compared as
/// numbers (`app-1.0.10000` is newer than `app-1.0.9999`); of folders of one
/// version the first is kept.
pub fn latest_app_dir(names: &Vec<String>) -> (r: Option<String>)
    ensures
        r is None <==> forall|i: int| 0 <= i < names@.len() ==> !is_app_dir(#[trigger] names@[i]@),
        r matches Some(best) ==> {
            &&& is_app_dir(best@)
            &&& exists|i: int| 0 <= i < names@.len() && #[trigger] names@[i]@ == best@
            &&& forall|i: int|
                0 <= i < names@.len() && is_app_dir(#[trigger] names@[i]@) ==> !older_app_dir(
                    best@,
                    names@[i]@,
                )
        },
{
    let mut best: Option<String> = None;
    let mut best_key: Vec<String> = Vec::new();
    let mut i: usize = 0;
    while i < names.len()
        invariant
            i <= names@.len(),
            best is None <==> forall|j: int| 0 <= j < i ==> !is_app_dir(#[trigger] names@[j]@),
            best matches Some(b) ==> {
                &&& is_app_dir(b@)
                &&& views(best_key@) == version_key(b@)
                &&& exists|j: int| 0 <= j < i && #[trigger] names@[j]@ == b@
                &&& forall|j: int|
                    0 <= j < i && is_app_dir(#[trigger] names@[j]@) ==> !older_app_dir(b@, names@[j]@)
            },
        decreases names@.len() - i,
    {
        let name = names[i].as_str();
        if starts_with(name, "app-") {
            proof {
                reveal_strlit("app-");
            }
            let key = version_keys(name);
            let replace = match &best {
                None => true,
                Some(_) => version_less_exec(&best_key, &key),
            };
            if replace {
                proof {
                    if let Some(b) = best {
                        assert forall|j: int|
                            0 <= j < i + 1 && is_app_dir(#[trigger] names@[j]@) implies !older_app_dir(
                            name@,
                            names@[j]@,
                        ) by {
                            if j < i {
                                if older_app_dir(name@, names@[j]@) {
                                    lemma_version_less_trans(version_key(b@), version_key(name@), version_key(names@[j]@));
                                }
                            } else {
                                lemma_version_less_irreflexive(version_key(name@));
                            }
                        }
                    } else {
                        assert forall|j: int|
                            0 <= j < i + 1 && is_app_dir(#[trigger] names@[j]@) implies !older_app_dir(
                            name@,
                            names@[j]@,
                        ) by {
                            lemma_version_less_irreflexive(version_key(name@));
                        }
                    }
                }
                best = Some(names[i].clone());
                best_key = key;
            }
        }
        i = i + 1;
    }
    best
}

pub proof fn lemma_lex_less_irreflexive(a: Seq<char>)
    ensures
        !lex_less(a, a),
    decreases a.len(),
{
    if a.len() > 0 {
        lemma_lex_less_irreflexive(a.drop_first());
    }
}

/// If `a < b` and not `c < b`... stated as: `a < b` and `!(a < c)` give
/// `!(b < c)`.
pub proof fn lemma_lex_less_trans_not(a: Seq<char>, b: Seq<char>, c: Seq<char>)
    requires
        lex_less(a, b),
        !lex_less(a, c),
    ensures
        !lex_less(b, c),
    decreases a.len(),
{
    if a.len() > 0 && b.len() > 0 && c.len() > 0 && a[0] == b[0] && a[0] == c[0] {
        lemma_lex_less_trans_not(a.drop_first(), b.drop_first(), c.drop_first());
    }
}

/// Two different strings are ordered one way or the other; equal ones
/// neither way.
pub proof fn lemma_lex_less_total(a: Seq<char>, b: Seq<char>)
    ensures
        !lex_less(a, b) ==> (lex_less(b, a) || a == b),
    decreases a.len(),
{
    if a.len() > 0 && b.len() > 0 && a[0] == b[0] {
        lemma_lex_less_total(a.drop_first(), b.drop_first());
        if a.drop_first() == b.drop_first() {
            assert forall|k: int| 0 <= k < a.len() implies a[k] == b[k] by {
                if k > 0 {
                    assert(a[k] == a.drop_first()[k - 1]);
                    assert(b[k] == b.drop_first()[k - 1]);
                }
            }
            assert(a =~= b);
        }
    } else if a.len() == 0 && b.len() == 0 {
        assert(a =~= b);
    } else if a.len() > 0 && b.len() > 0 {
    }
}

} // verus!
