use context_switch_daemon::database::DatabaseManager;
use context_switch_daemon::engine::{create_engine, WindowState, Workspace};

#[test]
fn test_database_persistence() {
    let mut db = DatabaseManager::new_in_memory().expect("Failed to create in-memory DB");

    let ws = Workspace {
        id: "test-uuid-5678".to_string(),
        name: "Coding Layout".to_string(),
        created_at: 1625000000,
        is_favorite: false,
        windows: vec![
            WindowState {
                id: None,
                app_name: "code.exe".to_string(),
                process_id: 5678,
                window_title: "VS Code".to_string(),
                x: 0,
                y: 0,
                width: 1920,
                height: 1080,
                is_minimized: false,
                is_maximized: true,
            },
            WindowState {
                id: None,
                app_name: "chrome.exe".to_string(),
                process_id: 9012,
                window_title: "Chrome Browser".to_string(),
                x: 100,
                y: 100,
                width: 800,
                height: 600,
                is_minimized: true,
                is_maximized: false,
            },
        ],
    };

    // Save
    db.save_workspace(&ws).expect("Failed to save workspace");

    // Retrieve
    let retrieved_opt = db.get_workspace_by_id("test-uuid-5678").expect("Failed to query workspace");
    assert!(retrieved_opt.is_some());
    let retrieved = retrieved_opt.unwrap();

    assert_eq!(retrieved.id, ws.id);
    assert_eq!(retrieved.name, ws.name);
    assert_eq!(retrieved.created_at, ws.created_at);
    assert_eq!(retrieved.windows.len(), 2);

    // Assert sorting and fields
    let code_win = retrieved.windows.iter().find(|w| w.app_name == "code.exe").unwrap();
    assert_eq!(code_win.x, 0);
    assert_eq!(code_win.is_maximized, true);
    assert_eq!(code_win.is_minimized, false);

    let chrome_win = retrieved.windows.iter().find(|w| w.app_name == "chrome.exe").unwrap();
    assert_eq!(chrome_win.is_minimized, true);
    assert_eq!(chrome_win.is_maximized, false);

    // Test list
    let list = db.list_workspaces().expect("Failed to list workspaces");
    assert_eq!(list.len(), 1);
    assert_eq!(list[0].id, "test-uuid-5678");
}

#[test]
fn test_engine_initialization() {
    let engine = create_engine();
    // This build has no native window engine: a capture sees no window.
    let res = engine.capture_windows();
    assert!(res.is_ok(), "Engine scanning failed: {:?}", res.err());
    let windows = res.unwrap();
    for win in &windows {
        assert!(win.width > 0);
        assert!(win.height > 0);
        assert!(!win.app_name.is_empty());
    }
}
