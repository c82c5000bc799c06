use rpak::{Action, ArchiverApp, Message, PackProgress, Tab};

fn fresh() -> ArchiverApp {
    ArchiverApp::default()
}

#[test]
fn fresh_window_state() {
    let app = fresh();
    assert_eq!(app.current_tab, Tab::Pack);
    assert!(app.files_to_pack.is_empty());
    assert_eq!(app.output_name, "archive.rpak");
    assert!(app.pack_password.is_empty());
    assert!(app.packing_progress.is_none());
    assert!(app.pack_status.is_empty());
    assert!(app.archive_path.is_none());
    assert!(app.output_dir.is_none());
    assert_eq!(app.archive_display(), "No archive selected");
    assert_eq!(app.output_display(), "No output directory selected");
}

#[test]
fn switching_tabs() {
    let mut app = fresh();
    assert!(matches!(app.update(Message::TabChanged(Tab::Unpack)), Action::Nothing));
    assert_eq!(app.current_tab, Tab::Unpack);
    app.update(Message::TabChanged(Tab::Pack));
    assert_eq!(app.current_tab, Tab::Pack);
}

#[test]
fn dialogs_are_requested() {
    let mut app = fresh();
    assert!(matches!(app.update(Message::AddFiles), Action::PickFiles));
    assert!(matches!(app.update(Message::AddFolder), Action::PickFolder));
    assert!(matches!(app.update(Message::SelectArchive), Action::PickArchive));
    assert!(matches!(app.update(Message::SelectOutputDir), Action::PickOutputDir));
}

#[test]
fn selecting_and_removing_files() {
    let mut app = fresh();
    app.update(Message::FilesSelected(vec!["a".to_string(), "b".to_string()]));
    app.update(Message::FilesSelected(vec!["c".to_string()]));
    assert_eq!(app.files_to_pack, vec!["a", "b", "c"]);
    app.update(Message::RemoveFile(1));
    assert_eq!(app.files_to_pack, vec!["a", "c"]);
    app.update(Message::RemoveFile(5));
    assert_eq!(app.files_to_pack, vec!["a", "c"]);
}

#[test]
fn packing_without_files_is_refused() {
    let mut app = fresh();
    assert!(matches!(app.update(Message::StartPacking), Action::Nothing));
    assert_eq!(app.pack_status, "Error: No files selected");
    assert!(app.packing_progress.is_none());
}

#[test]
fn packing_starts_a_job() {
    let mut app = fresh();
    app.update(Message::FilesSelected(vec!["/d/a.txt".to_string()]));
    app.update(Message::OutputNameChanged("out.rpak".to_string()));
    match app.update(Message::StartPacking) {
        Action::Pack { files, output, password } => {
            assert_eq!(files, vec!["/d/a.txt"]);
            assert_eq!(output, "out.rpak");
            assert!(password.is_none());
        }
        other => panic!("unexpected action {:?}", other),
    }
    assert_eq!(app.pack_status, "Packing...");
    let p = app.packing_progress.clone().unwrap();
    assert_eq!((p.current_file.as_str(), p.processed, p.total), ("", 0, 1));
}

#[test]
fn packing_sends_the_typed_password() {
    let mut app = fresh();
    app.update(Message::FilesSelected(vec!["f".to_string()]));
    app.update(Message::PasswordChanged("hunter2".to_string()));
    match app.update(Message::StartPacking) {
        Action::Pack { password, .. } => assert_eq!(password, Some("hunter2".to_string())),
        other => panic!("unexpected action {:?}", other),
    }
}

#[test]
fn packing_progress_and_completion() {
    let mut app = fresh();
    app.update(Message::PackingProgress(PackProgress {
        current_file: "x".to_string(),
        processed: 2,
        total: 5,
    }));
    assert_eq!(app.packing_progress.clone().unwrap().processed, 2);
    app.update(Message::PackingComplete(Ok(())));
    assert!(app.packing_progress.is_none());
    assert_eq!(app.pack_status, "\u{2713} Successfully created archive.rpak");
    app.update(Message::PackingComplete(Err("disk full".to_string())));
    assert_eq!(app.pack_status, "\u{2717} Error: disk full");
}

#[test]
fn unpacking_needs_archive_and_directory() {
    let mut app = fresh();
    assert!(matches!(app.update(Message::StartUnpacking), Action::Nothing));
    assert_eq!(app.unpack_status, "Error: No archive selected");
    app.update(Message::ArchiveSelected(Some("/tmp/a.rpak".to_string())));
    assert_eq!(app.archive_display(), "/tmp/a.rpak");
    assert!(matches!(app.update(Message::StartUnpacking), Action::Nothing));
    assert_eq!(app.unpack_status, "Error: No output directory selected");
}

#[test]
fn unpacking_starts_a_job() {
    let mut app = fresh();
    app.update(Message::ArchiveSelected(Some("/tmp/a.rpak".to_string())));
    app.update(Message::OutputDirSelected(Some("/tmp/out".to_string())));
    app.update(Message::UnpackPasswordChanged("pw".to_string()));
    assert_eq!(app.output_display(), "/tmp/out");
    match app.update(Message::StartUnpacking) {
        Action::Unpack { archive, output_dir, password } => {
            assert_eq!(archive, "/tmp/a.rpak");
            assert_eq!(output_dir, "/tmp/out");
            assert_eq!(password, Some("pw".to_string()));
        }
        other => panic!("unexpected action {:?}", other),
    }
    assert_eq!(app.unpack_status, "Unpacking...");
    assert!(app.unpacking_progress.is_some());
}

#[test]
fn unpacking_completion() {
    let mut app = fresh();
    app.update(Message::UnpackingProgress(PackProgress {
        current_file: "y".to_string(),
        processed: 1,
        total: 2,
    }));
    assert!(app.unpacking_progress.is_some());
    app.update(Message::UnpackingComplete(Ok(())));
    assert!(app.unpacking_progress.is_none());
    assert_eq!(app.unpack_status, "\u{2713} Successfully unpacked archive");
    app.update(Message::UnpackingComplete(Err("bad".to_string())));
    assert_eq!(app.unpack_status, "\u{2717} Error: bad");
}

#[test]
fn deselecting_an_archive() {
    let mut app = fresh();
    app.update(Message::ArchiveSelected(Some("/a".to_string())));
    app.update(Message::ArchiveSelected(None));
    assert!(app.archive_path.is_none());
}

#[test]
fn messages_clone() {
    let m = Message::PackingComplete(Err("e".to_string()));
    match m.clone() {
        Message::PackingComplete(Err(e)) => assert_eq!(e, "e"),
        _ => panic!("clone changed the message"),
    }
}
