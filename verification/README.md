# context_switch_daemon

The library behind ContextSwitch, a desktop daemon that captures the layout
of the application windows on screen and restores it later.

`src/` is verified with Verus:

- `engine/` — the captured records (`WindowState`, `Workspace`), the engine
  trait, and the decisions of the Windows engine: which windows a capture
  keeps, which saved applications are relaunched, how saved windows are
  paired with the windows on screen and put back in reverse order, and how a
  missing game or app is started through Steam, Epic Games, Riot or its
  newest Discord folder.
- `database.rs` — storage of workspaces and settings in SQLite through
  `rusqlite`. The database is modelled by what it holds (settings,
  workspace rows, window rows); the calls into `rusqlite` state what each
  statement does to it and what each query answers from it. Proved on top:
  a saved workspace reads back (up to window row ids and order), a setting
  reads back as last set, saves and deletes leave the rest alone, and
  toggling a favorite twice restores it. What a file holds when it is
  opened is not modelled.
- `daemon.rs` — the jobs of the background worker.
- `preview.rs` — the canvas on which monitor pictures are stitched, and the
  stitching itself (through the `image` crate).
- `user_path.rs` — adding the program folder to `PATH` once.
- `text.rs` — the character-level string operations all of the above use.

`app/` is the Tauri program around the library: the dashboard commands, the
worker thread, the Win32 calls, screenshots and the file system.
