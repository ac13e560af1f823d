use context_switch_daemon::daemon::{
    capture_job, delete_job, display_name, hotkey_or_default, list_job, require_found,
    is_first_launch, restore_job, save_captured, toggle_action, DashboardAction, stats_from_capture, stats_job, thumbnail_file_name,
    toggle_favorite_job, update_job,
};
use context_switch_daemon::database::{
    flipped_favorite, setting_from_query, window_args, window_from_row, workspace_args,
    DatabaseManager, DbError, SqlArg, WindowRow,
};
use context_switch_daemon::engine::launchers::{
    discord_install_root, epic_install_paths, epic_launch_uri, epic_manifest_matches, epic_matches,
    riot_client_from_installs,
    extract_quoted_value, extract_yaml_quoted_value, is_steam_manifest_file, latest_app_dir,
    parse_steam_manifest, riot_client_path, riot_install_matches, riot_launch_args, riot_product,
    riot_settings_file_name, steam_game_location, steam_launch_uri, EpicManifest,
};
use context_switch_daemon::engine::macos::MacosWindowSpy;
use context_switch_daemon::engine::windows::{
    app_key_of, classify_window, get_basename, maximized_origin, own_basename, pending_keys,
    keep_waiting, plan_launches, plan_restore, still_missing, RestoreKind, WindowProbe, WindowRect,
    WindowsWindowSpy,
};
use context_switch_daemon::engine::dummy::DummyWindowSpy;
use context_switch_daemon::engine::{WindowSpyEngine, WindowState, Workspace};
use context_switch_daemon::preview::{canvas_layout, monitor_offset, stitch_monitors, MonitorArea, Picture};
use context_switch_daemon::text::{lines, split_on, trim_chars, CharClass};
use context_switch_daemon::user_path::path_with_dir;

fn win(app: &str, pid: u32, x: i32, y: i32, maximized: bool, minimized: bool) -> WindowState {
    WindowState {
        id: None,
        app_name: app.to_string(),
        process_id: pid,
        window_title: format!("{} window", app),
        x,
        y,
        width: 800,
        height: 600,
        is_minimized: minimized,
        is_maximized: maximized,
    }
}

fn probe(app: &str, class: &str) -> WindowProbe {
    WindowProbe {
        visible: true,
        title_len: 5,
        is_tool_window: false,
        has_owner: false,
        is_minimized: false,
        is_maximized: false,
        title: "Title".to_string(),
        process_id: 42,
        app_name: app.to_string(),
        class_name: class.to_string(),
        rect: Some(WindowRect { left: 10, top: 20, right: 110, bottom: 220 }),
    }
}

// ---------------- text ----------------

#[test]
fn split_keeps_empty_pieces() {
    let parts = split_on("a;;b;", ';');
    assert_eq!(parts, vec!["a", "", "b", ""]);
    assert_eq!(split_on("", ';'), vec![""]);
}

#[test]
fn lines_follow_str_lines() {
    assert_eq!(lines("a\r\nb\n\nc"), vec!["a", "b", "", "c"]);
    assert_eq!(lines("a\n"), vec!["a"]);
    assert!(lines("").is_empty());
    assert_eq!(lines("x\r"), vec!["x\r"]);
}

#[test]
fn trim_strips_unicode_space_and_quotes() {
    assert_eq!(trim_chars("\u{3000} \t value \n", CharClass::WhiteSpace), "value");
    assert_eq!(trim_chars("'\"x\"'", CharClass::QuoteMark), "x");
}

// ---------------- names ----------------

#[test]
fn basename_of_windows_and_unix_paths() {
    assert_eq!(get_basename("C:\\Program Files\\App\\app.exe"), "app.exe");
    assert_eq!(get_basename("/usr/bin/code"), "code");
    assert_eq!(get_basename("C:\\mixed/dir\\tool.exe"), "tool.exe");
    assert_eq!(get_basename("plain"), "plain");
    let once = get_basename("C:\\a\\b.exe");
    assert_eq!(get_basename(&once), once);
}

#[test]
fn app_key_is_lowercase_basename() {
    assert_eq!(app_key_of("C:\\Windows\\NOTEPAD.EXE"), "notepad.exe");
    assert_eq!(own_basename(Some("C:\\Apps\\Context-Switch.EXE")), Some("context-switch.exe".to_string()));
    assert_eq!(own_basename(None), None);
}

// ---------------- capture ----------------

#[test]
fn classify_keeps_plain_application_window() {
    let w = classify_window(probe("C:\\App\\app.exe", "AppWindow"), true).unwrap();
    assert_eq!(w.x, 10);
    assert_eq!(w.y, 20);
    assert_eq!(w.width, 100);
    assert_eq!(w.height, 200);
    assert_eq!(w.app_name, "C:\\App\\app.exe");
    assert_eq!(w.id, None);
}

#[test]
fn classify_drops_shell_and_helper_windows() {
    assert!(classify_window(probe("C:\\Windows\\explorer.exe", "Progman"), false).is_none());
    assert!(classify_window(probe("C:\\x.exe", "Shell_TrayWnd"), false).is_none());
    assert!(classify_window(probe("C:\\x.exe", "MultitaskingViewFrame"), false).is_none());
    assert!(classify_window(probe("C:\\Windows\\Explorer.EXE", "SomeHelper"), false).is_none());
    assert!(classify_window(probe("C:\\Windows\\explorer.exe", "CabinetWClass"), false).is_some());
}

#[test]
fn classify_drops_hidden_untitled_tool_owned_and_empty_windows() {
    let mut p = probe("a.exe", "C");
    p.visible = false;
    assert!(classify_window(p, false).is_none());
    let mut p = probe("a.exe", "C");
    p.title_len = 0;
    assert!(classify_window(p, false).is_none());
    let mut p = probe("a.exe", "C");
    p.is_tool_window = true;
    assert!(classify_window(p, false).is_none());
    let mut p = probe("a.exe", "C");
    p.has_owner = true;
    assert!(classify_window(p, false).is_none());
    let mut p = probe("a.exe", "C");
    p.rect = Some(WindowRect { left: 5, top: 5, right: 5, bottom: 50 });
    assert!(classify_window(p, false).is_none());
    let mut p = probe("a.exe", "C");
    p.rect = None;
    assert!(classify_window(p, false).is_none());
}

#[test]
fn classify_skips_minimized_only_when_asked() {
    let mut p = probe("a.exe", "C");
    p.is_minimized = true;
    assert!(classify_window(p, true).is_none());
    let mut p = probe("a.exe", "C");
    p.is_minimized = true;
    let w = classify_window(p, false).unwrap();
    assert!(w.is_minimized);
}

// ---------------- restore planning ----------------

#[test]
fn launches_are_the_saved_windows_missing_on_screen() {
    let saved = vec![
        win("C:\\a\\Editor.exe", 1, 0, 0, false, false),
        win("C:\\b\\browser.exe", 2, 0, 0, false, false),
        win("C:\\a\\editor.exe", 3, 0, 0, false, false),
        win("Unknown", 4, 0, 0, false, false),
        win("C:\\cs\\context-switch.exe", 5, 0, 0, false, false),
    ];
    let active = vec![win("D:\\other\\EDITOR.exe", 10, 0, 0, false, false)];
    let launches = plan_launches(&saved, &active, 99, &None);
    assert_eq!(launches, vec![1, 2]);
    let keys = pending_keys(&saved, &launches);
    assert_eq!(keys.len(), 2);
    assert!(keys.contains(&"browser.exe".to_string()));
    assert!(keys.contains(&"editor.exe".to_string()));
    let now = vec![win("C:\\b\\Browser.exe", 11, 0, 0, false, false)];
    assert_eq!(still_missing(&keys, &now), vec!["editor.exe".to_string()]);
}

#[test]
fn restore_pairs_in_order_and_goes_in_reverse() {
    let saved = vec![
        win("C:\\a\\editor.exe", 1, 0, 0, true, false),
        win("C:\\b\\browser.exe", 2, 50, 60, false, false),
        win("C:\\a\\editor.exe", 3, 5, 5, false, true),
    ];
    let active = vec![
        win("C:\\b\\browser.exe", 20, 0, 0, false, false),
        win("C:\\a\\editor.exe", 21, 0, 0, false, false),
        win("C:\\m\\music.exe", 22, 0, 0, false, false),
        win("C:\\b\\browser.exe", 23, 0, 0, false, false),
        win("C:\\me\\daemon.exe", 99, 0, 0, false, false),
    ];
    let plan = plan_restore(&saved, &active, 99, &None, false);
    let steps: Vec<(usize, usize)> = plan.steps.iter().map(|s| (s.saved, s.active)).collect();
    assert_eq!(steps, vec![(1, 0), (0, 1)]);
    assert_eq!(plan.steps[1].kind, RestoreKind::Maximize);
    assert_eq!(plan.steps[0].kind, RestoreKind::Normal);
    // Ambient restore: the surplus browser window is minimized, the music
    // player (not part of the workspace) is left alone.
    assert_eq!(plan.minimize, vec![3]);
    assert!(plan.close.is_empty());

    let plan = plan_restore(&saved, &active, 99, &None, true);
    assert_eq!(plan.close, vec![2, 3]);
    assert!(plan.minimize.is_empty());
}

#[test]
fn restore_skips_own_windows_by_name() {
    let saved = vec![win("C:\\x\\tool.exe", 1, 0, 0, false, false)];
    let active = vec![win("C:\\x\\Tool.exe", 7, 0, 0, false, false)];
    let own = Some("tool.exe".to_string());
    let plan = plan_restore(&saved, &active, 99, &own, true);
    assert!(plan.steps.is_empty());
    assert!(plan.close.is_empty());
    assert!(plan_launches(&saved, &active, 99, &own).is_empty());
}

#[test]
fn maximized_origin_moves_inside_monitor() {
    assert_eq!(maximized_origin(-5, 3, Some((0, 0))), (10, 10));
    assert_eq!(maximized_origin(1930, 40, Some((1920, 0))), (1930, 40));
    assert_eq!(maximized_origin(-5, 3, None), (-5, 3));
}

// ---------------- launchers ----------------

#[test]
fn quoted_values() {
    assert_eq!(extract_quoted_value("\"appid\"\t\t\"570\""), Some("570".to_string()));
    assert_eq!(extract_quoted_value("\"appid\""), None);
    assert_eq!(extract_quoted_value("\"a\" \"\""), Some("".to_string()));
    assert_eq!(
        extract_yaml_quoted_value("product_install_full_path: \"C:/Riot Games/VALORANT/live\""),
        Some("C:/Riot Games/VALORANT/live".to_string())
    );
    assert_eq!(extract_yaml_quoted_value("key:  'a:b'  "), Some("a:b".to_string()));
    assert_eq!(extract_yaml_quoted_value("no colon"), None);
}

#[test]
fn steam_location_and_uri() {
    let path = "D:\\SteamLibrary\\SteamApps\\common\\Dota 2 beta\\game\\bin\\win64\\dota2.exe";
    let (dir, game) = steam_game_location(path).unwrap();
    assert_eq!(dir, "D:\\SteamLibrary\\SteamApps");
    assert_eq!(game, "dota 2 beta");
    assert_eq!(steam_game_location("C:\\Games\\x.exe"), None);
    assert_eq!(steam_game_location("D:/lib/steamapps/common/\\x.exe"), None);

    let acf = "\"AppState\"\n{\n\t\"appid\"\t\t\"570\"\n\t\"installdir\"\t\t\"Dota 2 Beta\"\n}\n";
    assert_eq!(parse_steam_manifest(acf), (Some("570".to_string()), Some("Dota 2 Beta".to_string())));
    assert_eq!(steam_launch_uri(acf, "dota 2 beta"), Some("steam://rungameid/570".to_string()));
    assert_eq!(steam_launch_uri(acf, "other"), None);
    assert!(is_steam_manifest_file("appmanifest_570.acf"));
    assert!(!is_steam_manifest_file("libraryfolders.vdf"));
}

#[test]
fn epic_uri_and_matching() {
    let m = EpicManifest {
        install_location: "C:/Program Files/Epic Games/Fortnite".to_string(),
        launch_executable: "FortniteGame/Binaries/Win64/FortniteLauncher.exe".to_string(),
        catalog_namespace: Some("fn".to_string()),
        catalog_item_id: Some("4fe75bbc".to_string()),
        app_name: "Fortnite".to_string(),
    };
    assert_eq!(
        epic_launch_uri(&m),
        "com.epicgames.launcher://apps/fn%3A4fe75bbc%3AFortnite?action=launch&silent=true"
    );
    let (install, exec) = epic_install_paths(&m);
    assert_eq!(install, "c:\\program files\\epic games\\fortnite");
    assert_eq!(exec, "fortnitegame\\binaries\\win64\\fortnitelauncher.exe");
    let path = "c:\\program files\\epic games\\fortnite\\fortnitegame\\binaries\\win64\\fortnitelauncher.exe";
    assert!(epic_manifest_matches(path, &install, &exec, "nothing"));
    assert!(epic_manifest_matches("p", "q", "r", "p"));
    assert!(!epic_manifest_matches("c:\\other.exe", &install, &exec, "x"));
    let bare = EpicManifest { catalog_namespace: None, ..m };
    assert_eq!(epic_launch_uri(&bare), "com.epicgames.launcher://apps/Fortnite?action=launch&silent=true");
}

#[test]
fn riot_decisions() {
    assert_eq!(riot_client_path(None), "C:\\Riot Games\\Riot Client\\RiotClientServices.exe");
    assert_eq!(riot_client_path(Some("D:/Riot/RiotClientServices.exe")), "D:\\Riot\\RiotClientServices.exe");
    assert_eq!(riot_product("valorant.live"), Some(("valorant".to_string(), "live".to_string())));
    assert_eq!(riot_product("plain"), None);
    assert_eq!(riot_settings_file_name("valorant.live"), "valorant.live.product_settings.yaml");
    let yaml = "product_install_root: \"C:/Riot Games\"\n  product_install_full_path: \"C:/Riot Games/VALORANT/live\"\n";
    assert!(riot_install_matches(yaml, "c:\\riot games\\valorant\\live\\valorant.exe"));
    assert!(!riot_install_matches(yaml, "c:\\riot games\\league\\game.exe"));
    assert_eq!(
        riot_launch_args("valorant", "live"),
        ("--launch-product=valorant".to_string(), "--launch-patchline=live".to_string())
    );
}

#[test]
fn discord_root_and_latest_version() {
    let path = "C:\\Users\\me\\AppData\\Local\\Discord\\app-1.0.9245\\Discord.exe";
    assert_eq!(discord_install_root(path), Some("C:\\Users\\me\\AppData\\Local\\Discord".to_string()));
    assert_eq!(discord_install_root("C:\\Apps\\Discord"), None);
    assert_eq!(discord_install_root("C:\\Apps\\tool.exe"), None);
    let names = vec![
        "app-1.0.9100".to_string(),
        "packages".to_string(),
        "app-1.0.9245".to_string(),
        "app-1.0.9200".to_string(),
    ];
    assert_eq!(latest_app_dir(&names), Some("app-1.0.9245".to_string()));
    assert_eq!(latest_app_dir(&vec!["packages".to_string()]), None);
}

// ---------------- preview ----------------

#[test]
fn canvas_spans_all_monitors() {
    let ms = vec![
        MonitorArea { x: 0, y: 0, width: 1920, height: 1080 },
        MonitorArea { x: -1280, y: 100, width: 1280, height: 1024 },
    ];
    let c = canvas_layout(&ms).unwrap();
    assert_eq!((c.min_x, c.min_y, c.width, c.height), (-1280, 0, 3200, 1124));
    assert_eq!(monitor_offset(&c, 0, 0), (1280, 0));
    assert_eq!(monitor_offset(&c, -1280, 100), (0, 100));
    assert_eq!(canvas_layout(&vec![]).unwrap_err(), "No monitors found");
    assert_eq!(
        canvas_layout(&vec![MonitorArea { x: 0, y: 0, width: 0, height: 10 }]).unwrap_err(),
        "Invalid virtual screen dimensions"
    );
}

// ---------------- PATH ----------------

#[test]
fn path_gets_the_folder_once() {
    let first = path_with_dir("C:\\Windows;C:\\Tools", "C:\\Apps\\CS").unwrap();
    assert_eq!(first, "C:\\Windows;C:\\Tools;C:\\Apps\\CS");
    assert_eq!(path_with_dir(&first, "C:\\Apps\\CS"), None);
    assert_eq!(path_with_dir("c:\\apps\\cs\\ ; x", " C:\\APPS\\CS"), None);
    assert_eq!(path_with_dir("", "C:\\Apps"), Some("C:\\Apps".to_string()));
}

// ---------------- database ----------------

fn sample(id: &str, created_at: i64) -> Workspace {
    Workspace {
        id: id.to_string(),
        name: format!("ws {}", id),
        created_at,
        is_favorite: false,
        windows: vec![win("C:\\a\\editor.exe", 1, 3, 4, false, true)],
    }
}

#[test]
fn database_round_trip_and_listing_order() {
    let mut db = DatabaseManager::new_in_memory().unwrap();
    db.save_workspace(&sample("old", 100)).unwrap();
    db.save_workspace(&sample("new", 200)).unwrap();
    let list = db.list_workspaces().unwrap();
    let ids: Vec<&str> = list.iter().map(|w| w.id.as_str()).collect();
    assert_eq!(ids, vec!["new", "old"]);
    let got = db.get_workspace_by_id("old").unwrap().unwrap();
    assert_eq!(got.name, "ws old");
    assert!(got.windows[0].id.is_some());
    assert_eq!(got.windows[0].x, 3);
    assert!(got.windows[0].is_minimized);
    assert!(db.get_workspace_by_id("missing").unwrap().is_none());
}

#[test]
fn saving_again_replaces_windows() {
    let mut db = DatabaseManager::new_in_memory().unwrap();
    let mut ws = sample("w", 1);
    db.save_workspace(&ws).unwrap();
    ws.windows.push(win("C:\\b\\browser.exe", 2, 0, 0, false, false));
    ws.name = "renamed".to_string();
    db.save_workspace(&ws).unwrap();
    let got = db.get_workspace_by_id("w").unwrap().unwrap();
    assert_eq!(got.windows.len(), 2);
    assert_eq!(got.name, "renamed");
}

#[test]
fn toggle_favorite_twice_and_missing() {
    let mut db = DatabaseManager::new_in_memory().unwrap();
    db.save_workspace(&sample("f", 1)).unwrap();
    assert_eq!(db.toggle_workspace_favorite("f").unwrap(), true);
    assert!(db.get_workspace_by_id("f").unwrap().unwrap().is_favorite);
    assert_eq!(db.toggle_workspace_favorite("f").unwrap(), false);
    let err = db.toggle_workspace_favorite("nope").unwrap_err();
    assert_eq!(err.message(), "Query returned no rows");
    assert_eq!(flipped_favorite(0), (1, true));
    assert_eq!(flipped_favorite(7), (0, false));
}

#[test]
fn delete_removes_workspace() {
    let mut db = DatabaseManager::new_in_memory().unwrap();
    db.save_workspace(&sample("d", 1)).unwrap();
    db.delete_workspace_by_id("d").unwrap();
    assert!(db.get_workspace_by_id("d").unwrap().is_none());
}

#[test]
fn settings_default_hotkey_and_overwrite() {
    let mut db = DatabaseManager::new_in_memory().unwrap();
    assert_eq!(db.get_setting("hotkey").unwrap(), Some("alt+space".to_string()));
    assert_eq!(db.get_setting("launched_before").unwrap(), None);
    db.set_setting("hotkey", "ctrl+shift+h").unwrap();
    assert_eq!(db.get_setting("hotkey").unwrap(), Some("ctrl+shift+h".to_string()));
}

#[test]
fn stored_parameters_and_rows() {
    let w = win("C:\\a\\editor.exe", 9, -3, 4, true, false);
    let args = window_args(&"ws".to_string(), &w);
    assert_eq!(args.len(), 10);
    assert!(matches!(&args[0], SqlArg::Text(t) if t == "ws"));
    assert!(matches!(&args[8], SqlArg::Integer(0)));
    assert!(matches!(&args[9], SqlArg::Integer(1)));
    let mut ws = sample("z", 5);
    ws.is_favorite = true;
    let head = workspace_args(&ws);
    assert!(matches!(&head[3], SqlArg::Integer(1)));
    let row = WindowRow {
        id: 12,
        app_name: "a.exe".to_string(),
        process_id: 3,
        window_title: "t".to_string(),
        x: 1,
        y: 2,
        width: 3,
        height: 4,
        is_minimized: 5,
        is_maximized: 0,
    };
    let back = window_from_row(&row);
    assert_eq!(back.id, Some(12));
    assert!(back.is_minimized);
    assert!(!back.is_maximized);
}

#[test]
fn opening_a_folder_as_database_fails() {
    assert!(DatabaseManager::new(std::path::PathBuf::from("/")).is_err());
}

// ---------------- daemon jobs ----------------

#[test]
fn jobs_with_the_windowless_engine() {
    let mut db = DatabaseManager::new_in_memory().unwrap();
    let engine = DummyWindowSpy::new();
    let ws = capture_job(&mut db, &engine, "j1".to_string(), "Job".to_string(), 77).unwrap();
    assert_eq!(ws.created_at, 77);
    assert!(ws.windows.is_empty());
    assert_eq!(list_job(&mut db).unwrap().len(), 1);
    assert_eq!(restore_job(&mut db, &engine, "j1", true), Ok(()));
    assert_eq!(restore_job(&mut db, &engine, "zz", true), Err("Workspace not found".to_string()));
    let up = update_job(&mut db, &engine, "j1".to_string(), 99).unwrap();
    assert_eq!((up.name.as_str(), up.created_at), ("Job", 99));
    assert!(update_job(&mut db, &engine, "zz".to_string(), 1).is_err());
    let (name, fav) = toggle_favorite_job(&mut db, "j1");
    assert_eq!((name.as_str(), fav), ("Job", Ok(true)));
    assert_eq!(delete_job(&mut db, "j1"), Ok("Job".to_string()));
    assert_eq!(delete_job(&mut db, "gone"), Ok("gone".to_string()));
    let stats = stats_job(&engine, 12 * 1024 * 1024);
    assert_eq!((stats.memory_bytes, stats.active_windows), (12582912, 0));
    assert_eq!(display_name(Ok(None), "x"), "x");
    assert!(require_found(Ok(None)).is_err());
}

#[test]
fn hotkey_and_thumbnail_names() {
    assert_eq!(hotkey_or_default(None), "alt+space");
    assert_eq!(hotkey_or_default(Some("ctrl+k".to_string())), "ctrl+k");
    assert_eq!(thumbnail_file_name("abc"), "abc.jpg");
}

#[test]
fn macos_engine_refuses_elsewhere() {
    let e = MacosWindowSpy::new();
    assert_eq!(e.capture_windows().unwrap_err(), "macOS Window Spy Engine is only executable on macOS.");
    let ws = sample("m", 1);
    assert!(e.restore_workspace(&ws, false).is_err());
    let _ = WindowsWindowSpy::new();
}

#[test]
fn setting_lookup_answers() {
    assert_eq!(setting_from_query(Ok(Some("ctrl+k".to_string()))).unwrap(), Some("ctrl+k".to_string()));
    assert_eq!(setting_from_query(Ok(None)).unwrap(), None);
    let failed = setting_from_query(Err(rusqlite::Error::QueryReturnedNoRows));
    assert!(matches!(failed, Err(DbError::Sqlite(rusqlite::Error::QueryReturnedNoRows))));
}

#[test]
fn discord_latest_version_compares_numbers() {
    let names = vec!["app-1.0.9999".to_string(), "app-1.0.10000".to_string(), "app-1.0.09999".to_string()];
    assert_eq!(latest_app_dir(&names), Some("app-1.0.10000".to_string()));
    let names = vec!["app-1.1".to_string(), "app-1.0.20".to_string()];
    assert_eq!(latest_app_dir(&names), Some("app-1.1".to_string()));
    let names = vec!["app-2.0".to_string(), "app-2.0.1".to_string()];
    assert_eq!(latest_app_dir(&names), Some("app-2.0.1".to_string()));
}

#[test]
fn captured_windows_are_stored_and_errors_come_back() {
    let mut db = DatabaseManager::new_in_memory().unwrap();
    let wins = vec![win("C:\\a\\editor.exe", 1, 10, 20, false, false)];
    let ws = save_captured(&mut db, Ok(wins), "c1".to_string(), "Cap".to_string(), 5, true).unwrap();
    assert_eq!((ws.name.as_str(), ws.created_at, ws.is_favorite, ws.windows.len()), ("Cap", 5, true, 1));
    let back = db.get_workspace_by_id("c1").unwrap().unwrap();
    assert_eq!((back.windows[0].x, back.windows[0].y, back.is_favorite), (10, 20, true));
    let failed = save_captured(&mut db, Err("boom".to_string()), "c2".to_string(), "X".to_string(), 6, false);
    assert_eq!(failed.err(), Some("boom".to_string()));
    assert!(db.get_workspace_by_id("c2").unwrap().is_none());
    let two = vec![win("a.exe", 1, 0, 0, false, false), win("b.exe", 2, 0, 0, false, false)];
    assert_eq!(stats_from_capture(7, &Ok(two)).active_windows, 2);
    assert_eq!(stats_from_capture(7, &Err("no".to_string())).active_windows, 0);
}

#[test]
fn update_keeps_name_and_favorite() {
    let mut db = DatabaseManager::new_in_memory().unwrap();
    let engine = DummyWindowSpy::new();
    capture_job(&mut db, &engine, "u1".to_string(), "Keep".to_string(), 1).unwrap();
    db.toggle_workspace_favorite("u1").unwrap();
    let up = update_job(&mut db, &engine, "u1".to_string(), 2).unwrap();
    assert_eq!((up.name.as_str(), up.is_favorite, up.created_at), ("Keep", true, 2));
    assert_eq!(update_job(&mut db, &engine, "none".to_string(), 3).err(), Some("Workspace not found".to_string()));
}

#[test]
fn riot_client_comes_from_the_install_list() {
    let json = "{\"rc_default\": \"D:/Riot/Riot Client/RiotClientServices.exe\", \"other\": 1}";
    assert_eq!(riot_client_from_installs(Some(json)), "D:\\Riot\\Riot Client\\RiotClientServices.exe");
    let standard = "C:\\Riot Games\\Riot Client\\RiotClientServices.exe";
    assert_eq!(riot_client_from_installs(Some("not json")), standard);
    assert_eq!(riot_client_from_installs(Some("{\"rc_default\": 5}")), standard);
    assert_eq!(riot_client_from_installs(None), standard);
}

#[test]
fn epic_match_joins_install_and_executable() {
    let sep = std::path::MAIN_SEPARATOR;
    let joined = format!("c:\\games\\x{}bin\\x.exe", sep);
    assert!(epic_matches(&joined, "c:\\games\\x", "bin\\x.exe"));
    assert!(epic_matches("c:\\games\\x\\y\\bin\\x.exe", "c:\\games\\x", "bin\\x.exe"));
    assert!(!epic_matches("c:\\other\\bin\\x.exe", "c:\\games\\x", "bin\\x.exe"));
}

#[test]
fn monitors_are_stitched_side_by_side() {
    let areas = vec![
        MonitorArea { x: -2, y: 0, width: 2, height: 1 },
        MonitorArea { x: 0, y: 0, width: 1, height: 2 },
    ];
    let red = Picture { width: 2, height: 1, rgba: vec![255, 0, 0, 255, 255, 0, 0, 255] };
    let green = Picture { width: 1, height: 2, rgba: vec![0, 255, 0, 255, 0, 255, 0, 255] };
    let rgb = stitch_monitors(&areas, &vec![Some(red.clone()), Some(green)]).unwrap();
    // canvas 3 x 2: row 0 = red red green, row 1 = black black green
    assert_eq!(rgb, vec![255, 0, 0, 255, 0, 0, 0, 255, 0, 0, 0, 0, 0, 0, 0, 0, 255, 0]);
    let rgb = stitch_monitors(&areas, &vec![Some(red), None]).unwrap();
    assert_eq!(rgb, vec![255, 0, 0, 255, 0, 0, 0, 0, 0, 0, 0, 0, 0, 0, 0, 0, 0, 0]);
    assert_eq!(stitch_monitors(&vec![], &vec![]), Err("No monitors found".to_string()));
    let flat = vec![MonitorArea { x: 0, y: 0, width: 5, height: 0 }];
    assert_eq!(stitch_monitors(&flat, &vec![None]), Err("Invalid virtual screen dimensions".to_string()));
}

#[test]
fn dashboard_and_launch_decisions() {
    assert_eq!(toggle_action(true, true), DashboardAction::Hide);
    assert_eq!(toggle_action(false, true), DashboardAction::Show { topmost: true });
    assert_eq!(toggle_action(false, false), DashboardAction::Show { topmost: false });
    assert!(is_first_launch(&None));
    assert!(!is_first_launch(&Some("true".to_string())));
    let missing = vec!["game.exe".to_string()];
    assert!(keep_waiting(0, &missing));
    assert!(keep_waiting(24, &missing));
    assert!(!keep_waiting(25, &missing));
    assert!(!keep_waiting(3, &vec![]));
}

#[test]
fn resave_replaces_windows_and_keeps_other_workspaces() {
    let mut db = DatabaseManager::new_in_memory().unwrap();
    let mk = |id: &str, n: usize| Workspace {
        id: id.to_string(),
        name: format!("ws {}", id),
        created_at: 10,
        is_favorite: false,
        windows: (0..n).map(|k| win("C:\\a\\app.exe", k as u32, k as i32, 0, false, false)).collect(),
    };
    db.save_workspace(&mk("a", 2)).unwrap();
    db.save_workspace(&mk("b", 3)).unwrap();
    db.set_setting("hotkey", "ctrl+k").unwrap();
    db.save_workspace(&mk("a", 1)).unwrap();
    assert_eq!(db.get_workspace_by_id("a").unwrap().unwrap().windows.len(), 1);
    assert_eq!(db.get_workspace_by_id("b").unwrap().unwrap().windows.len(), 3);
    assert_eq!(db.get_setting("hotkey").unwrap(), Some("ctrl+k".to_string()));
    db.delete_workspace_by_id("a").unwrap();
    assert!(db.get_workspace_by_id("a").unwrap().is_none());
    assert_eq!(db.get_workspace_by_id("b").unwrap().unwrap().windows.len(), 3);
}

#[test]
fn fresh_database_holds_only_the_default_hotkey() {
    let mut db = DatabaseManager::new_in_memory().unwrap();
    assert_eq!(db.get_setting("hotkey").unwrap(), Some("alt+space".to_string()));
    assert!(db.list_workspaces().unwrap().is_empty());
    assert_eq!(db.toggle_workspace_favorite("none").is_err(), true);
}
