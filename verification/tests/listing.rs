//! Walking cloud folders and placing what changed in them.

use remarkable_server::integrations::google_drive::{
    self, configured_root, live, next_cursor, Change, Changed, DriveFile, SyncRoot, UploadAt,
    UploadStep, FOLDER_MIME,
};
use remarkable_server::integrations::oauth::OAuthConfig;
use remarkable_server::integrations::onedrive::{
    self, changed_since, next_delta, walk_root, Delta, DeltaNext, DriveItem, OneDrive,
};
use remarkable_server::integrations::paths::MAX_LIST_DEPTH;
use remarkable_server::integrations::walk::{Pages, Walk};
use remarkable_server::integrations::{CloudFile, IntegrationError};

/// An entry of a fake folder: id, name, whether it is a folder.
type Entry = (String, String, bool);

fn file(id: &str, name: &str) -> Entry {
    (id.into(), name.into(), false)
}

fn folder(id: &str, name: &str) -> Entry {
    (id.into(), name.into(), true)
}

/// Walk from `root`, a page at a time: the paths and ids that are listed, and the pages asked for.
fn list(
    root: &str,
    apart: bool,
    page: impl Fn(&str, Option<&str>) -> (Vec<Entry>, Option<String>),
    follow: fn(&mut Pages, Option<String>) -> Result<Option<String>, IntegrationError>,
) -> Result<(Vec<(String, String)>, Vec<(String, Option<String>)>), IntegrationError> {
    let mut walk = Walk::new(root, apart, true);
    let mut found = Vec::new();
    let mut log = Vec::new();
    while let Some(place) = walk.next() {
        let mut pages = Pages::new();
        let mut token: Option<String> = None;
        loop {
            log.push((place.id.clone(), token.clone()));
            let (entries, next) = page(&place.id, token.as_deref());
            for (id, name, is_folder) in entries {
                if let Some(path) = walk.offer(&place, &id, &name, is_folder) {
                    found.push((path, id));
                }
            }
            token = follow(&mut pages, next)?;
            if token.is_none() {
                break;
            }
        }
    }
    found.sort();
    Ok((found, log))
}

/// One page of a fake Drive for `(parent, pageToken)`.
fn drive_page(parent: &str, token: Option<&str>) -> (Vec<Entry>, Option<String>) {
    let (files, next) = match (parent, token) {
        ("root", None) => (
            vec![file("r1", "top.pdf"), folder("A", "A")],
            Some("root-p2"),
        ),
        ("root", Some("root-p2")) => (
            vec![
                file("r2", "second.pdf"),
                file("slash", "a/b.pdf"), // `/` is legal in Drive names
                folder("dots", ".."),
                file("r3", "top.pdf"), // same-name sibling
            ],
            None,
        ),
        ("A", None) => (vec![file("a1", "a.pdf"), folder("B", "B")], None),
        ("B", None) => (
            vec![
                file("b1", "b.pdf"),
                folder("A", "cycle"),    // A is also a child of B
                file("r1", "again.pdf"), // r1 also has B as a parent
            ],
            None,
        ),
        ("stuck", _) => (vec![file("s1", "s.pdf")], Some("same")),
        (p, None) if p.starts_with("deep") => {
            let n: usize = p[4..].parse().unwrap();
            (vec![folder(&format!("deep{}", n + 1), "d")], None)
        }
        _ => (vec![], None),
    };
    (files, next.map(Into::into))
}

fn strs(found: &[(String, String)]) -> Vec<(&str, &str)> {
    found
        .iter()
        .map(|(p, i)| (p.as_str(), i.as_str()))
        .collect()
}

#[test]
fn list_files_pages_and_recurses_with_full_paths() {
    let (found, log) = list("root", true, drive_page, google_drive::next_page).unwrap();
    assert_eq!(
        strs(&found),
        vec![
            ("/A", "A"),
            ("/A/B", "B"),
            ("/A/B/b.pdf", "b1"),
            ("/A/a.pdf", "a1"),
            ("/second.pdf", "r2"), // only on page 2: paging works
            ("/top.pdf", "r1"),    // first of the duplicate names wins
        ]
    );
    // root p1, root p2, A, B: each folder entered exactly once despite the cycle.
    assert_eq!(log.len(), 4);
    assert_eq!(log[1].1.as_deref(), Some("root-p2"));
}

#[test]
fn list_files_relative_to_folder_and_depth_capped() {
    let (found, _) = list("A", true, drive_page, google_drive::next_page).unwrap();
    let paths: Vec<&str> = found.iter().map(|f| f.0.as_str()).collect();
    // The cycle back to A (the listing root) is not re-entered.
    assert_eq!(paths, vec!["/B", "/B/again.pdf", "/B/b.pdf", "/a.pdf"]);

    let (deep, log) = list("deep0", true, drive_page, google_drive::next_page).unwrap();
    assert_eq!(deep.len(), MAX_LIST_DEPTH);
    assert_eq!(log.len(), MAX_LIST_DEPTH);
    let deepest = deep.iter().map(|f| f.0.matches('/').count()).max();
    assert_eq!(deepest, Some(MAX_LIST_DEPTH));
}

#[test]
fn list_files_fails_on_repeated_page_token() {
    let err = list("stuck", true, drive_page, google_drive::next_page).unwrap_err();
    assert!(
        matches!(err, IntegrationError::Api(ref m) if m.contains("repeated")),
        "{err:?}"
    );
}

fn drive_file(id: &str, name: &str, parents: &[&str]) -> DriveFile {
    DriveFile {
        id: id.into(),
        name: name.into(),
        mime_type: if name.ends_with(".pdf") {
            "application/pdf".into()
        } else {
            FOLDER_MIME.into()
        },
        size: None,
        modified_time: None,
        md5_checksum: None,
        parents: Some(parents.iter().map(|p| p.to_string()).collect()),
        trashed: None,
    }
}

/// Folder metadata of a fake Drive. `ROOTID` is My Drive's real id; `ext` isn't under it; `c1`/`c2`
/// are parents of each other; `lost` is not found.
fn folder_meta(id: &str) -> Option<DriveFile> {
    Some(match id {
        "A" => drive_file("A", "A", &["ROOTID"]),
        "B" => drive_file("B", "B", &["ROOTID"]),
        "sub" => drive_file("sub", "sub", &["A"]),
        "ext" => drive_file("ext", "Shared", &[]),
        "c1" => drive_file("c1", "c1", &["c2"]),
        "c2" => drive_file("c2", "c2", &["c1"]),
        "bad" => drive_file("bad", "..", &["ROOTID"]),
        _ => return None,
    })
}

fn changes() -> Vec<Change> {
    let change = |f: DriveFile| Change {
        file: Some(f),
        removed: None,
    };
    let mut trashed = drive_file("t", "t.pdf", &["ROOTID"]);
    trashed.trashed = Some(true);
    vec![
        change(drive_file("top", "f.pdf", &["ROOTID"])),
        change(drive_file("nested", "f.pdf", &["A"])),
        change(drive_file("b", "f.pdf", &["B"])),
        change(drive_file("deep", "f.pdf", &["sub"])),
        change(drive_file("outside", "f.pdf", &["ext"])),
        change(drive_file("multi", "m.pdf", &["ext", "A"])),
        change(drive_file("cyc", "f.pdf", &["c1"])),
        change(drive_file("orphan", "f.pdf", &["lost"])),
        change(drive_file("unsafe", "f.pdf", &["bad"])),
        change(trashed),
        Change {
            file: None,
            removed: Some(true),
        },
    ]
}

fn drive_changes(root: &SyncRoot) -> (Vec<(String, String)>, Vec<String>) {
    let mut changed = Changed::new(live(changes()), root);
    let mut lookups = Vec::new();
    while let Some(id) = changed.find() {
        changed.learn(id.clone(), folder_meta(&id).as_ref());
        lookups.push(id);
    }
    let mut found: Vec<(String, String)> = changed
        .found()
        .into_iter()
        .map(|f| (f.path, f.id))
        .collect();
    found.sort();
    (found, lookups)
}

#[test]
fn changes_get_full_paths_under_my_drive() {
    assert!(configured_root(None).is_none());
    let (found, mut lookups) = drive_changes(&SyncRoot("root".into(), Some("ROOTID".into())));
    assert_eq!(
        next_cursor(Some("next".into()), Some("page".into())).as_deref(),
        Some("next")
    );
    // Same-name files in different folders keep distinct paths; items outside the root, in a parent
    // cycle, under a missing or unsafe folder, trashed or removed are dropped.
    assert_eq!(
        strs(&found),
        vec![
            ("/A/f.pdf", "nested"),
            ("/A/m.pdf", "multi"), // first parent (`ext`) doesn't reach root; `A` does
            ("/A/sub/f.pdf", "deep"),
            ("/B/f.pdf", "b"),
            ("/f.pdf", "top"),
        ]
    );
    // Every folder is looked up at most once.
    let n = lookups.len();
    lookups.sort();
    lookups.dedup();
    assert_eq!(n, lookups.len(), "folder metadata not cached: {lookups:?}");
}

#[test]
fn changes_relative_to_sync_folder() {
    // A configured folder id needs no lookup of My Drive's id.
    let root = configured_root(Some("A")).unwrap();
    assert!(root.is("A") && !root.is("root"));
    let (found, _) = drive_changes(&root);
    assert_eq!(
        strs(&found),
        vec![
            ("/f.pdf", "nested"),
            ("/m.pdf", "multi"),
            ("/sub/f.pdf", "deep")
        ]
    );
}

/// `children` of folder `id` of a fake OneDrive, page `page`, and the next page.
fn children(id: &str, page: Option<&str>) -> (Vec<Entry>, Option<String>) {
    match (id, page) {
        ("root", _) => (vec![file("T", "top.pdf"), folder("F", "Notes")], None),
        ("F", None) => (
            vec![file("A", "a.pdf"), folder("S", "Sub")],
            Some("2".into()),
        ),
        ("F", Some("2")) => (
            vec![
                file("B", "b.pdf"),
                file("BAD", ".."),
                folder("W", r"we\ird"),
                file("A", "a.pdf"), // repeated across pages
            ],
            None,
        ),
        ("S", None) => (vec![file("C", "c.pdf"), folder("DP", "Deeper")], None),
        ("DP", None) => (vec![file("D", "d.pdf")], None),
        ("stuck", _) => (vec![], Some("1".into())),
        (deep, None) if deep.starts_with("deep") => {
            let n: usize = deep[4..].parse().unwrap();
            (vec![folder(&format!("deep{}", n + 1), "d")], None)
        }
        _ => (vec![], None),
    }
}

#[test]
fn list_files_walks_children_with_paging_relative_to_the_folder() {
    assert_eq!(walk_root(Some("F")), Some("F"));
    assert_eq!(walk_root(Some("")), None);
    let (found, log) = list("F", false, children, onedrive::next_page).unwrap();
    // Unsafe names are skipped (and never entered); a repeated item is listed once.
    let paths: Vec<&str> = found.iter().map(|f| f.0.as_str()).collect();
    assert_eq!(
        paths,
        vec![
            "/Sub",
            "/Sub/Deeper",
            "/Sub/Deeper/d.pdf",
            "/Sub/c.pdf",
            "/a.pdf",
            "/b.pdf"
        ]
    );
    let asked: Vec<(&str, Option<&str>)> = log
        .iter()
        .map(|(i, p)| (i.as_str(), p.as_deref()))
        .collect();
    assert_eq!(
        asked,
        vec![("F", None), ("F", Some("2")), ("S", None), ("DP", None)]
    );
    let (all, _) = list("root", false, children, onedrive::next_page).unwrap();
    let paths: Vec<&str> = all.iter().map(|f| f.0.as_str()).collect();
    assert!(paths.contains(&"/top.pdf"));
    assert!(paths.contains(&"/Notes/Sub/Deeper/d.pdf"));
}

#[test]
fn list_files_caps_depth_and_fails_on_repeated_links() {
    let (deep, log) = list("deep0", false, children, onedrive::next_page).unwrap();
    assert_eq!(deep.len(), MAX_LIST_DEPTH);
    assert_eq!(log.len(), MAX_LIST_DEPTH);
    let deepest = deep.iter().map(|f| f.0.matches('/').count()).max();
    assert_eq!(deepest, Some(MAX_LIST_DEPTH));

    let err = list("stuck", false, children, onedrive::next_page).unwrap_err();
    assert!(
        matches!(err, IntegrationError::Api(ref m) if m.contains("repeated")),
        "{err:?}"
    );
}

fn one(id: &str, name: &str, parent: &str, is_folder: bool) -> DriveItem {
    DriveItem {
        id: id.into(),
        name: name.into(),
        size: 3,
        is_folder,
        mime_type: None,
        sha256_hash: None,
        quick_xor_hash: None,
        last_modified: Some("2024-01-02T03:04:05Z".into()),
        parent_id: if parent.is_empty() {
            None
        } else {
            Some(parent.into())
        },
        parent_path: None,
        is_root: false,
        deleted: false,
    }
}

fn gone(id: &str, name: &str, parent: &str) -> DriveItem {
    DriveItem {
        deleted: true,
        ..one(id, name, parent, false)
    }
}

fn drive_root() -> DriveItem {
    DriveItem {
        is_root: true,
        ..one("ROOTID", "root", "", true)
    }
}

/// Folders that can be looked up; anything else is not found.
fn graph_folder(id: &str) -> Option<DriveItem> {
    Some(match id {
        "ROOTID" => drive_root(),
        "F" => one("F", "Notes", "ROOTID", true),
        "S" => one("S", "Sub", "F", true),
        "O" => one("O", "Other", "ROOTID", true),
        "X" => one("X", "..", "F", true),
        "c1" => one("c1", "c1", "c2", true),
        "c2" => one("c2", "c2", "c1", true),
        _ => return None,
    })
}

fn delta() -> Vec<DriveItem> {
    vec![
        drive_root(),
        one("F", "Notes", "ROOTID", true),
        one("N", "new.pdf", "F", false),
        one("Y", "y.pdf", "S", false), // S isn't in the delta: looked up
        one("Y2", "y2.pdf", "S", false),
        one("OUT", "out.pdf", "O", false),
        one("R", "first.pdf", "F", false),
        gone("G", "gone.pdf", "F"),
        one("U", "u.pdf", "X", false),
        one("CY", "c.pdf", "c1", false),
        one("OR", "o.pdf", "LOST", false),
        one("R", "second.pdf", "F", false), // renamed: the last occurrence wins
        gone("OLDRE", "re.pdf", "F"),
        one("NEWRE", "re.pdf", "F", false), // re-created under the same name
        gone("Q", "", ""),
    ]
}

fn graph_changes(folder_id: Option<&str>) -> (Vec<CloudFile>, Vec<String>) {
    let mut changed = Delta::new(delta(), &onedrive::SyncRoot::of(folder_id));
    let mut lookups = Vec::new();
    while let Some(id) = changed.find() {
        changed.learn(id.clone(), graph_folder(&id).as_ref());
        lookups.push(id);
    }
    (changed.files(), lookups)
}

#[test]
fn changes_start_from_the_latest_token() {
    let base = "http://graph";
    let config = OAuthConfig::onedrive("id".into(), None, "http://localhost/cb".into());
    let drive = OneDrive::new(config).with_base_url(base);
    assert_eq!(
        drive.delta_url(None),
        format!("{base}/me/drive/root/delta?token=latest")
    );
    // That page holds nothing and ends with the cursor to go on from.
    let link = format!("{base}/me/drive/root/delta?token=D0");
    match next_delta(&mut Pages::new(), Some(link.clone()), None).unwrap() {
        DeltaNext::Done(cursor) => assert_eq!(cursor, link),
        other => panic!("{other:?}"),
    }
    // Whatever the page held, nothing has changed without a cursor.
    let items = changed_since(None, delta());
    let mut changed = Delta::new(items, &onedrive::SyncRoot::of(Some("F")));
    assert_eq!(changed_since(Some(&link), delta()).len(), delta().len());
    assert!(changed.find().is_none());
    assert!(changed.files().is_empty());
    assert_eq!(drive.delta_url(Some(&link)), link);
}

#[test]
fn changes_follow_pages_and_are_scoped_to_the_folder() {
    let (files, mut lookups) = graph_changes(Some("F"));
    // Deletions first; each item's last state; outside the folder, under an unsafe or missing
    // folder, in a parent cycle, or nameless: dropped. The deletion of the old `re.pdf` is superseded
    // by the new one.
    let got: Vec<(&str, &str, bool)> = files
        .iter()
        .map(|f| (f.path.as_str(), f.id.as_str(), f.deleted))
        .collect();
    assert_eq!(
        got,
        vec![
            ("/gone.pdf", "G", true),
            ("/new.pdf", "N", false),
            ("/Sub/y.pdf", "Y", false),
            ("/Sub/y2.pdf", "Y2", false),
            ("/second.pdf", "R", false),
            ("/re.pdf", "NEWRE", false),
        ]
    );
    // Folders in the delta aren't looked up; others at most once each.
    let n = lookups.len();
    lookups.sort();
    lookups.dedup();
    assert_eq!(n, lookups.len(), "{lookups:?}");
    assert!(!lookups.iter().any(|c| c == "F" || c == "ROOTID"));
    assert!(lookups.contains(&"S".to_string()));

    // Whole drive: paths from the root, the root item itself skipped.
    let (files, _) = graph_changes(None);
    let mut paths: Vec<&str> = files.iter().map(|f| f.path.as_str()).collect();
    paths.sort();
    assert_eq!(
        paths,
        vec![
            "/Notes",
            "/Notes/Sub/y.pdf",
            "/Notes/Sub/y2.pdf",
            "/Notes/gone.pdf",
            "/Notes/new.pdf",
            "/Notes/re.pdf",
            "/Notes/second.pdf",
            "/Other/out.pdf",
        ]
    );
}

#[test]
fn changes_errors() {
    let link = |t: &str| format!("http://graph/me/drive/root/delta?token={t}");
    let mut pages = Pages::new();
    // The same next link twice would go on forever.
    match next_delta(&mut pages, None, Some(link("loop"))).unwrap() {
        DeltaNext::Page(l) => assert_eq!(l, link("loop")),
        other => panic!("{other:?}"),
    }
    let err = next_delta(&mut pages, None, Some(link("loop"))).unwrap_err();
    assert!(matches!(err, IntegrationError::Api(_)));
    // Neither link.
    let err = next_delta(&mut pages, None, None).unwrap_err();
    assert!(matches!(err, IntegrationError::Api(_)));
    match next_delta(&mut pages, Some(link("E1")), None).unwrap() {
        DeltaNext::Done(l) => assert_eq!(l, link("E1")),
        other => panic!("{other:?}"),
    }
}

#[test]
fn delta_sync_applies_scoped_changes_and_skips_deletions() {
    let (files, _) = graph_changes(Some("F"));
    let applied: Vec<&CloudFile> = files
        .iter()
        .filter(|f| !f.deleted && !f.is_folder)
        .collect();
    assert_eq!(applied.len(), 5);
    let re = applied.iter().find(|f| f.path == "/re.pdf").unwrap();
    assert_eq!(re.id, "NEWRE");
    assert_eq!(re.modified_at, 1_704_164_645);
    assert!(!files.iter().any(|f| f.path == "/out.pdf"));
}

#[test]
fn folders_of_an_upload_are_found_or_created() {
    let path = vec!["a", "b", "f.pdf"];
    let mut up = UploadAt::new(None, &path).unwrap();
    let said = |s: UploadStep| match s {
        UploadStep::Find { parent, name } => format!("find {name} in {parent}"),
        UploadStep::Create { parent, name } => format!("create {name} in {parent}"),
        UploadStep::Upload { parent, name } => format!("upload {name} to {parent}"),
    };
    assert_eq!(said(up.step()), "find a in root");
    up.found(Some("A".into()));
    assert_eq!(said(up.step()), "find b in A");
    up.found(None);
    assert_eq!(said(up.step()), "create b in A");
    up.found(Some("B".into()));
    assert_eq!(said(up.step()), "upload f.pdf to B");
    up.found(Some("C".into()));
    assert_eq!(said(up.step()), "upload f.pdf to B");

    let up = UploadAt::new(Some("F"), &vec!["x"]).unwrap();
    assert_eq!(said(up.step()), "upload x to F");
    assert!(matches!(
        UploadAt::new(None, &vec![]),
        Err(IntegrationError::InvalidPath(_))
    ));
}
