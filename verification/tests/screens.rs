//! What the buttons of the three screens decide, and the license signer.

use checkpoint::data_structures::{CommitResult, Repo, Timestamp, Workspace, WorkspaceFile};
use checkpoint::diff::LineTag;
use checkpoint::err::{Init, Reason};
use checkpoint::file_system::{ProjectRoot, SentinelFile};
use checkpoint::licensing::{
    LicenseSaveResult, Registration, RegistrationInfo, check_license_request, key_pair_matches, license_block,
    product_key, read_license,
};
use checkpoint::path::FsPath;
use checkpoint::ui::{App, UIMenu};
use checkpoint::view_directory::DirectoryView;
use checkpoint::views::{HistoryView, RecoverView};

fn abs(parts: &[&str]) -> FsPath {
    FsPath::new("/".to_string(), parts.iter().map(|s| s.to_string()).collect())
}

fn rel(parts: &[&str]) -> FsPath {
    FsPath::new(String::new(), parts.iter().map(|s| s.to_string()).collect())
}

fn root() -> ProjectRoot {
    ProjectRoot::new(abs(&["p"]))
}

fn scan(files: &[(&str, &[u8])]) -> Workspace {
    Workspace {
        project_path: abs(&["p"]),
        files: files
            .iter()
            .map(|(n, d)| WorkspaceFile { path: abs(&["p", n]), data: d.to_vec() })
            .collect(),
        existing: Vec::new(),
    }
}

fn committed_repo() -> Repo {
    let mut repo = Repo::new();
    repo.create_commit(&root(), "c0".into(), String::new(), Ok(scan(&[("a.txt", b"v1\n")])))
        .unwrap();
    repo
}

fn io_error() -> Reason {
    Reason::IoString("walk".to_string(), "denied".to_string())
}

// ---------------------------------------------------------------------------
// History screen
// ---------------------------------------------------------------------------

#[test]
fn create_button_without_changes_warns() {
    let repo = committed_repo();
    let mut v = HistoryView::new(root());
    v.create_checkpoint_clicked(&repo, Ok(scan(&[("a.txt", b"v1\n")])));
    assert_eq!(v.generic_warning.as_deref(), Some("You cannot make a checkpoint when there are no changes!"));
    assert!(!v.new_checkpoint_dialog);
}

#[test]
fn create_button_with_changes_opens_the_dialog() {
    let repo = committed_repo();
    let mut v = HistoryView::new(root());
    v.create_checkpoint_clicked(&repo, Ok(scan(&[("a.txt", b"v2\n")])));
    assert!(v.new_checkpoint_dialog);
    assert!(v.generic_warning.is_none());
}

#[test]
fn create_button_shows_scan_errors() {
    let repo = committed_repo();
    let mut v = HistoryView::new(root());
    v.create_checkpoint_clicked(&repo, Err(io_error()));
    assert_eq!(v.generic_warning.as_deref(), Some("walk: denied"));
}

#[test]
fn restore_button_asks_only_when_work_is_unsaved() {
    let repo = committed_repo();
    let mut v = HistoryView::new(root());
    assert!(v.restore_clicked(&repo, Ok(scan(&[("a.txt", b"v1\n")]))));
    assert!(!v.restore_dialog);
    assert!(!v.restore_clicked(&repo, Ok(scan(&[("a.txt", b"dirty\n")]))));
    assert!(v.restore_dialog);
    v.hide_restore_dialog();
    assert!(!v.restore_clicked(&repo, Err(io_error())));
    assert_eq!(v.generic_warning.as_deref(), Some("walk: denied"));
    assert!(!v.restore_dialog);
}

#[test]
fn restore_errors_are_shown() {
    let mut v = HistoryView::new(root());
    v.warn_on_error(Ok(()));
    assert!(v.generic_warning.is_none());
    v.warn_on_error(Err(Reason::Other("Attempting to restore to a checkpoint that does not exist.".into())));
    assert_eq!(
        v.generic_warning.as_deref(),
        Some("Attempting to restore to a checkpoint that does not exist.")
    );
}

#[test]
fn finishing_a_commit() {
    let mut v = HistoryView::new(root());
    v.show_new_checkpoint_dialog();
    v.checkpoint_name_input = "name".into();
    v.checkpoint_description_input = "desc".into();

    let sel = v.commit_finished(Err(io_error()), 1, Some(0));
    assert_eq!(sel, Some(0));
    assert!(v.new_checkpoint_dialog);
    assert_eq!(v.checkpoint_name_input, "name");
    assert_eq!(v.generic_warning.as_deref(), Some("walk: denied"));

    let sel = v.commit_finished(Ok(CommitResult::Success), 2, Some(0));
    assert_eq!(sel, Some(1));
    assert!(!v.new_checkpoint_dialog);
    assert_eq!(v.checkpoint_name_input, "");
    assert_eq!(v.checkpoint_description_input, "");

    v.show_new_checkpoint_dialog();
    v.generic_warning = None;
    let sel = v.commit_finished(Ok(CommitResult::NoOp), 2, Some(1));
    assert_eq!(sel, Some(1));
    assert!(!v.new_checkpoint_dialog);
    assert_eq!(v.generic_warning.as_deref(), Some("You must have changes to make a checkpoint!"));
}

#[test]
fn cancelling_a_commit_keeps_the_description() {
    let mut v = HistoryView::new(root());
    v.show_new_checkpoint_dialog();
    v.checkpoint_name_input = "name".into();
    v.checkpoint_description_input = "desc".into();
    v.commit_cancelled();
    assert!(!v.new_checkpoint_dialog);
    assert_eq!(v.checkpoint_name_input, "");
    assert_eq!(v.checkpoint_description_input, "desc");
}

#[test]
fn window_of_changes() {
    let repo = committed_repo();
    let mut v = HistoryView::new(root());
    v.recalculate_diff = false;
    v.view_unsaved_work(&repo, Ok(scan(&[("a.txt", b"v2\n"), ("b.txt", b"new\n")])));
    assert!(v.diff_view && v.recalculate_diff);
    let d = v.workspace_delta.as_ref().unwrap();
    assert_eq!(d.changed_files.len(), 1);
    assert_eq!(d.new_files.len(), 1);

    // Nothing to show until a file is picked.
    v.refresh_diff(&repo, "ignored");
    assert!(v.recalculate_diff);
    assert!(v.cached_diff_lines.is_empty());

    v.select_diff_file(rel(&["a.txt"]));
    v.refresh_diff(&repo, "v2\n");
    assert!(!v.recalculate_diff);
    assert_eq!(
        v.cached_diff_lines,
        vec![
            (LineTag::Delete, "- v1".to_string()),
            (LineTag::Insert, "+ v2".to_string()),
            (LineTag::Equal, "--- HUNK BREAK ---".to_string()),
        ]
    );
    // Not recomputed until asked.
    v.refresh_diff(&repo, "other\n");
    assert_eq!(v.cached_diff_lines.len(), 3);

    v.close_diff();
    assert!(!v.diff_view);
    assert!(v.workspace_delta.is_none());

    v.view_unsaved_work(&repo, Err(io_error()));
    assert!(!v.diff_view);
    assert_eq!(v.generic_warning.as_deref(), Some("walk: denied"));
}

// ---------------------------------------------------------------------------
// Recovery screen
// ---------------------------------------------------------------------------

#[test]
fn recovery_screen_retries_the_restore() {
    let mut v = RecoverView::new(3, root());
    assert!(v.restore_finished(Err(Reason::Other("locked".into()))).is_none());
    assert_eq!(v.generic_warning.as_deref(), Some("locked"));
    let h = v.restore_finished(Ok(())).unwrap();
    assert_eq!(h.project_path.get(), abs(&["p"]));
    assert!(h.generic_warning.is_none());
}

// ---------------------------------------------------------------------------
// Start screen
// ---------------------------------------------------------------------------

#[test]
fn creating_a_project() {
    let mut v = DirectoryView::default();
    let h = v.project_created(root(), Ok(())).unwrap();
    assert_eq!(h.project_path.get(), abs(&["p"]));
    assert_eq!(v.picked_dir.as_ref().unwrap().get(), abs(&["p"]));

    let mut v = DirectoryView::default();
    assert!(v.project_created(root(), Err(Init::ProjectAlreadyExists)).is_none());
    assert!(v.show_collision_warning);
    assert!(v.generic_warning.is_none());

    let mut v = DirectoryView::default();
    assert!(v.project_created(root(), Err(Init::Io(abs(&["p"]), "denied".into()))).is_none());
    assert!(!v.show_collision_warning);
    assert_eq!(v.generic_warning.as_deref(), Some("encountered error with /p: denied"));
}

#[test]
fn opening_a_project() {
    let sentinel = SentinelFile::new(abs(&["p", "checkpoint_data", "project.checkpoint"]));

    let mut v = DirectoryView::default();
    let mut repo = Repo::new();
    let r = v.project_opened(&mut repo, &sentinel, Err(Reason::Other("bad".into())), None);
    assert!(r.is_none());
    assert_eq!(v.generic_warning.as_deref(), Some("bad"));

    let mut v = DirectoryView::default();
    let r = v.project_opened(&mut repo, &sentinel, Ok(committed_repo()), None);
    assert_eq!(repo.commits.len(), 1);
    match r {
        Some(UIMenu::History(h)) => assert_eq!(h.project_path.get(), abs(&["p"])),
        _ => panic!("expected the history screen"),
    }

    let r = v.project_opened(&mut repo, &sentinel, Ok(committed_repo()), Some(" 0\n".into()));
    match r {
        Some(UIMenu::Recover(rv)) => {
            assert_eq!(rv.commit, 0);
            assert_eq!(rv.project_root.get(), abs(&["p"]));
        }
        _ => panic!("expected the recovery screen"),
    }

    let r = v.project_opened(&mut repo, &sentinel, Ok(committed_repo()), Some("banana".into()));
    assert!(matches!(r, Some(UIMenu::History(_))));
}

fn signing_key() -> [u8; 32] {
    [11u8; 32]
}

fn public_key() -> [u8; 32] {
    ed25519_dalek::SigningKey::from_bytes(&signing_key()).verifying_key().to_bytes()
}

fn issued_license(expiry: &str) -> String {
    let key = product_key(&signing_key(), "1.0", "Wayside School", expiry);
    license_block("1.0", "Wayside School", expiry, &key)
}

#[test]
fn registering() {
    let now = Timestamp { secs: 0, nanos: 0 };

    let mut v = DirectoryView::default();
    v.registration_window = true;
    v.license_input = "garbage".into();
    assert!(v.register_clicked(&public_key(), now).is_none());
    assert_eq!(v.generic_warning.as_deref(), Some("Failed to read version number"));
    assert!(v.registration_window);

    let mut v = DirectoryView::default();
    v.registration_window = true;
    v.license_input = issued_license("2030-01-31");
    let (info, status) = v.register_clicked(&public_key(), now).unwrap();
    assert_eq!(info.licensee, "Wayside School");
    assert_eq!(status, Some(Registration::Registered));
    assert!(v.registered && !v.registration_window);

    let mut v = DirectoryView::default();
    v.license_input = issued_license("2030-01-31");
    let late = Timestamp { secs: 4_102_444_800, nanos: 0 };
    let (_, status) = v.register_clicked(&public_key(), late).unwrap();
    assert_eq!(status, Some(Registration::Expired));
    assert_eq!(v.generic_warning.as_deref(), Some("This license is expired."));
    assert!(!v.registered);

    let mut v = DirectoryView::default();
    v.license_input = issued_license("2030-01-31").replace("Wayside", "Sideways");
    let (_, status) = v.register_clicked(&public_key(), now).unwrap();
    assert_eq!(status, Some(Registration::Unregistered));
    assert_eq!(v.generic_warning.as_deref(), Some("Invalid license key. Please try again."));
}

#[test]
fn saving_the_license_is_reported() {
    let mut v = DirectoryView::default();
    v.license_saved(Ok(LicenseSaveResult::MachineWide));
    assert_eq!(
        v.generic_warning.as_deref(),
        Some("Successfuly registered for all users. Thank you for registering CheckpointPro!")
    );
    v.license_saved(Ok(LicenseSaveResult::UserOnly));
    assert_eq!(
        v.generic_warning.as_deref(),
        Some("Successfuly registered for this user. Thank you for registering CheckpointPro!")
    );
    v.license_saved(Err(Reason::Other("read-only".into())));
    assert_eq!(
        v.generic_warning.as_deref(),
        Some("Failed to save registration information. Reason: read-only")
    );
}

// ---------------------------------------------------------------------------
// The program's state
// ---------------------------------------------------------------------------

#[test]
fn the_program_starts_on_the_start_screen() {
    let app = App::new(None, &public_key()).unwrap();
    assert!(app.registration.is_none() && app.registration_status.is_none());
    assert!(matches!(app.ui_data.menu, UIMenu::DirectorySelect(_)));
    assert!(app.selected.is_none());

    let far = RegistrationInfo::new(issued_license("2100-01-31")).unwrap();
    let app = App::new(Some(far), &public_key()).unwrap();
    assert_eq!(app.registration_status, Some(Registration::Registered));

    let mut app = App::new(None, &public_key()).unwrap();
    app.repo = committed_repo();
    app.select_current_if_none();
    assert_eq!(app.selected, Some(0));
    app.selected = Some(5);
    app.select_current_if_none();
    assert_eq!(app.selected, Some(5));
}

// ---------------------------------------------------------------------------
// The license signer
// ---------------------------------------------------------------------------

#[test]
fn issued_licenses_read_back_and_validate() {
    let text = issued_license("2030-01-31");
    assert!(text.starts_with("=============START OF LICENSE=============\nVERSION: 1.0\n"));
    assert!(text.ends_with("\n==============END OF LICENSE=============="));
    let fields = read_license(&text);
    assert_eq!(fields.version.as_deref(), Some("1.0"));
    assert_eq!(fields.licensee.as_deref(), Some("Wayside School"));
    assert_eq!(fields.expiry.as_deref(), Some("2030-01-31"));
    let info = RegistrationInfo::new(text).unwrap();
    let before = Timestamp { secs: info.expiry.secs - 10, nanos: 0 };
    assert_eq!(info.validate_at(&public_key(), before), Some(Registration::Registered));
    let after = Timestamp { secs: info.expiry.secs + 86_400, nanos: 1 };
    assert_eq!(info.validate_at(&public_key(), after), Some(Registration::Expired));
}

#[test]
fn product_keys_are_the_base64_of_the_signature() {
    let key = product_key(&signing_key(), "1.0", "A", "2030-01-01");
    let sig = ed25519_dalek::Signer::sign(
        &ed25519_dalek::SigningKey::from_bytes(&signing_key()),
        b"1.0|A|2030-01-01",
    );
    assert_eq!(
        key,
        base64::Engine::encode(&base64::engine::general_purpose::STANDARD, sig.to_bytes())
    );
    assert_eq!(key.len(), 88);
}

#[test]
fn signer_checks_its_inputs() {
    assert!(check_license_request("1.0", "A", "2030-01-31").is_ok());
    assert_eq!(
        check_license_request("1.0", "A", "31-01-2030"),
        Err("EXPIRY '31-01-2030' is not a valid YYYY-MM-DD date. Aborting.".to_string())
    );
    assert_eq!(
        check_license_request("", "A", "2030-01-31"),
        Err("VERSION and LICENSEE must not be empty. Aborting.".to_string())
    );
    assert_eq!(
        check_license_request("1.0", "", "bad"),
        Err("EXPIRY 'bad' is not a valid YYYY-MM-DD date. Aborting.".to_string())
    );
}

#[test]
fn key_pairs_are_recognised() {
    assert!(key_pair_matches(&signing_key(), &public_key()));
    assert!(!key_pair_matches(&[12u8; 32], &public_key()));
}

#[test]
fn license_expiry_is_the_end_of_its_date() {
    let info = RegistrationInfo::new(issued_license("2030-01-31")).unwrap();
    // 2030-01-31 23:59:59 read as UTC; the machine's zone is less than a day away.
    let utc = 1_896_134_399i64;
    assert_eq!(info.expiry.nanos, 0);
    assert!((info.expiry.secs - utc).abs() < 86_400);
    let leap = RegistrationInfo::new(issued_license("2028-02-29")).unwrap();
    assert!((leap.expiry.secs - 1_835_481_599i64).abs() < 86_400);
}
