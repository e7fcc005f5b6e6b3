//! A whole sync, one step at a time.

use remarkable_server::clock::Timestamp;
use remarkable_server::integrations::google_drive::{self, GoogleDrive};
use remarkable_server::integrations::machine::{
    after_changes, Changes, DeltaMachine, DeltaStep, Step, SyncMachine,
};
use remarkable_server::integrations::oauth::{OAuthConfig, OAuthToken};
use remarkable_server::integrations::sync::{
    cloud_table, CloudSync, LocalFile, SyncConfig, SyncDirection, SyncState, SyncStatus,
};
use remarkable_server::integrations::conflict::{ConflictStrategy, ConflictResolver};
use remarkable_server::integrations::{CloudFile, IntegrationError};
use remarkable_server::table::Table;

fn google() -> GoogleDrive {
    GoogleDrive::with_token(
        OAuthConfig::google_drive("id".into(), None, "http://localhost/cb".into()),
        OAuthToken {
            access_token: "t".into(),
            refresh_token: None,
            token_type: "Bearer".into(),
            expires_at: None,
            scope: None,
        },
    )
}

fn cloud_file(id: &str, path: &str, modified_at: i64) -> CloudFile {
    CloudFile {
        id: id.into(),
        name: path.rsplit('/').next().unwrap().into(),
        mime_type: None,
        size: 3,
        modified_at,
        content_hash: None,
        parent_id: None,
        is_folder: false,
        path: path.into(),
        deleted: false,
    }
}

fn config(direction: SyncDirection) -> SyncConfig {
    SyncConfig {
        local_path: "/srv".into(),
        direction,
        ..SyncConfig::default()
    }
}

fn local_files(paths: &[(&str, i64)]) -> Table<LocalFile> {
    let mut local = Table::new();
    for (p, modified_at) in paths {
        local.insert(
            p.to_string(),
            LocalFile {
                full_path: format!("/srv{p}"),
                modified_at: *modified_at,
                size: 1,
            },
        );
    }
    local
}

fn at() -> Timestamp {
    Timestamp {
        seconds: 0,
        nanos: 0,
    }
}

/// Run a sync in which every transfer goes well: what was uploaded and downloaded.
fn run_through(
    mut machine: SyncMachine<GoogleDrive>,
) -> (Vec<String>, Vec<String>, SyncMachine<GoogleDrive>) {
    let mut up = Vec::new();
    let mut down = Vec::new();
    loop {
        match machine.step(at()) {
            Step::Nothing => {}
            Step::Upload { path, .. } => {
                machine.uploaded(Ok(cloud_file("new", &path, 50)));
                up.push(path);
            }
            Step::Download(file) => {
                machine.downloaded(Ok(()));
                down.push(file.path);
            }
            Step::Done => break,
        }
    }
    up.sort();
    down.sort();
    (up, down, machine)
}

#[test]
fn a_sync_moves_what_one_side_lacks() {
    let mut folder = cloud_file("d", "/dir", 1);
    folder.is_folder = true;
    let cloud = vec![cloud_file("c", "/cloud.pdf", 1), folder];
    let sync = CloudSync::new(google(), config(SyncDirection::Bidirectional));
    let machine = SyncMachine::new(sync, local_files(&[("/a.pdf", 5)]), cloud_table(&cloud));
    let (up, down, machine) = run_through(machine);
    assert_eq!(up, ["/a.pdf"]);
    assert_eq!(down, ["/cloud.pdf"]);
    let (sync, run) = machine.finish(77, 12);
    assert_eq!(run.result.uploaded, 1);
    assert_eq!(run.result.downloaded, 1);
    assert_eq!(run.result.status, SyncStatus::Success);
    assert_eq!(run.result.duration_ms, 12);
    assert_eq!(sync.state().last_sync, Some(77));
    assert_eq!(sync.state().mtime_map.get("/a.pdf"), Some(&5));
    assert_eq!(sync.state().file_map.get("/cloud.pdf"), Some(&"c".to_string()));
}

#[test]
fn a_sync_keeps_to_its_direction() {
    let cloud = vec![cloud_file("c", "/cloud.pdf", 1)];
    for (direction, ups, downs) in [
        (SyncDirection::Upload, 1, 0),
        (SyncDirection::Download, 0, 1),
        (SyncDirection::Bidirectional, 1, 1),
    ] {
        let sync = CloudSync::new(google(), config(direction));
        let machine = SyncMachine::new(sync, local_files(&[("/a.pdf", 5)]), cloud_table(&cloud));
        let (up, down, _) = run_through(machine);
        assert_eq!((up.len(), down.len()), (ups, downs));
    }
}

#[test]
fn failed_transfers_are_told_and_others_go_on() {
    let cloud = vec![cloud_file("c", "/cloud.pdf", 1)];
    let sync = CloudSync::new(google(), config(SyncDirection::Bidirectional));
    let mut machine = SyncMachine::new(sync, local_files(&[("/a.pdf", 5)]), cloud_table(&cloud));
    assert!(matches!(machine.step(at()), Step::Upload { path, .. } if path == "/a.pdf"));
    machine.uploaded(Err(google_drive::response_error(404, None, "")));
    assert!(matches!(machine.step(at()), Step::Download(f) if f.id == "c"));
    machine.downloaded(Ok(()));
    // A second report of the same transfer changes nothing.
    machine.downloaded(Ok(()));
    assert!(matches!(machine.step(at()), Step::Done));
    let (_, run) = machine.finish(1, 0);
    assert_eq!(run.result.downloaded, 1);
    assert_eq!(run.result.errors.len(), 1);
    assert!(run.result.errors[0].starts_with("Upload /a.pdf failed: "));
    assert_eq!(run.result.status, SyncStatus::PartialSuccess);
}

#[test]
fn unchanged_files_are_left_alone() {
    let sync = CloudSync::new(google(), config(SyncDirection::Bidirectional));
    let cloud = vec![cloud_file("c", "/a.pdf", 100)];
    let machine = SyncMachine::new(sync, local_files(&[]), cloud_table(&cloud));
    let (_, down, machine) = run_through(machine);
    assert_eq!(down, ["/a.pdf"]);
    let (sync, _) = machine.finish(150, 0);
    let machine = SyncMachine::new(sync, local_files(&[("/a.pdf", 100)]), cloud_table(&cloud));
    let (up, down, _) = run_through(machine);
    assert!(up.is_empty() && down.is_empty());
}

#[test]
fn changes_are_looked_at_and_downloaded() {
    let state = SyncState {
        cursor: Some("old".into()),
        ..SyncState::default()
    };
    let sync = CloudSync::with_state(google(), config(SyncDirection::Download), state);
    let mut gone = cloud_file("g", "/gone.pdf", 1);
    gone.deleted = true;
    let changes = vec![
        gone,
        cloud_file("e", "/../evil.pdf", 1),
        cloud_file("n", "/A/f.pdf", 1),
    ];
    let mut machine = DeltaMachine::new(sync, changes);
    assert!(matches!(machine.step(), DeltaStep::Nothing));
    assert!(matches!(machine.step(), DeltaStep::Nothing));
    assert!(matches!(machine.step(), DeltaStep::Look(p) if p == "/srv/A/f.pdf"));
    assert_eq!(machine.looked(None, at()).map(|f| f.id), Some("n".to_string()));
    machine.downloaded(Ok(()));
    assert!(matches!(machine.step(), DeltaStep::Done));
    let (sync, run) = machine.finish(Some("next".into()), 9, 3);
    assert_eq!(run.result.downloaded, 1);
    assert_eq!(run.result.errors.len(), 1);
    assert!(run.result.errors[0].starts_with("Skipped /../evil.pdf: "));
    assert_eq!(run.result.status, SyncStatus::PartialSuccess);
    // A path that is never safe does not hold the cursor.
    assert_eq!(sync.state().cursor.as_deref(), Some("next"));
}

#[test]
fn passing_failures_hold_the_cursor() {
    let state = SyncState {
        cursor: Some("old".into()),
        ..SyncState::default()
    };
    let sync = CloudSync::with_state(google(), config(SyncDirection::Download), state);
    let changes = vec![cloud_file("a", "/a.pdf", 1), cloud_file("b", "/b.pdf", 1)];
    let mut machine = DeltaMachine::new(sync, changes);
    machine.step();
    machine.looked(None, at());
    machine.downloaded(Err(google_drive::response_error(503, None, "")));
    machine.step();
    machine.looked(None, at());
    machine.downloaded(Ok(()));
    let (sync, run) = machine.finish(Some("next".into()), 9, 3);
    assert!(run.transient);
    assert_eq!(sync.state().cursor.as_deref(), Some("old"));
}

#[test]
fn a_forgotten_cursor_leads_to_a_full_sync() {
    let answer = || Ok((vec![cloud_file("a", "/a", 1)], Some("next".to_string())));
    let gone = || Err(IntegrationError::ResyncRequired("gone".into()));
    match after_changes(false, answer()) {
        Changes::Apply { changes, cursor } => {
            assert_eq!(changes.len(), 1);
            assert_eq!(cursor.as_deref(), Some("next"));
        }
        other => panic!("{other:?}"),
    }
    assert!(matches!(after_changes(false, gone()), Changes::AskLatest));
    match after_changes(true, answer()) {
        Changes::Resync { cursor } => assert_eq!(cursor.as_deref(), Some("next")),
        other => panic!("{other:?}"),
    }
    // It is asked for once.
    assert!(matches!(
        after_changes(true, gone()),
        Changes::Fail(IntegrationError::ResyncRequired(_))
    ));
    let failed = Err(IntegrationError::Network("down".into()));
    assert!(matches!(
        after_changes(false, failed),
        Changes::Fail(IntegrationError::Network(_))
    ));
}

#[test]
fn conflicts_for_the_user_wait_behind_those_that_waited() {
    let mut sync = CloudSync::new(google(), config(SyncDirection::Bidirectional));
    sync.conflict_resolver = ConflictResolver::new(ConflictStrategy::AskUser);
    let at = Timestamp { seconds: 900, nanos: 0 };
    for (path, seconds) in [("/a", 10), ("/b", 20)] {
        let local = LocalFile {
            full_path: format!("/srv{path}"),
            modified_at: seconds,
            size: 1,
        };
        sync.decide(path, &local, &cloud_file("c", path, 30), at);
    }
    let change = cloud_file("d", "/d", 5);
    let there = LocalFile {
        full_path: "/srv/d".into(),
        modified_at: 40,
        size: 1,
    };
    sync.decide_change(&change, Some(there), at);
    let waiting: Vec<&str> = sync
        .conflict_resolver
        .pending_conflicts()
        .iter()
        .map(|c| c.local_path.as_str())
        .collect();
    assert_eq!(waiting, ["/srv/a", "/srv/b", "/srv/d"]);
    assert!(sync
        .conflict_resolver
        .pending_conflicts()
        .iter()
        .all(|c| c.resolution.is_none()));
}
