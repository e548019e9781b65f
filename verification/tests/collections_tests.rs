use sdmm::collections::PackageCollections;
use sdmm::package::{install_root, package_kind, GameMod, InstallRoot, PackageKind, LOADER_ID};

fn record(name: &str, id: u64, version: &str) -> GameMod {
    GameMod {
        name: name.to_string(),
        zip_name: format!("{name}.zip"),
        folder_name: String::new(),
        version: version.to_string(),
        author: "someone".to_string(),
        link: String::new(),
        mod_id: id,
        file_id: id + 1,
    }
}

fn ids(mods: &[GameMod]) -> Vec<u64> {
    mods.iter().map(|m| m.mod_id).collect()
}

fn no_id_in_both(c: &PackageCollections) -> bool {
    c.inactive.iter().all(|i| c.active.iter().all(|a| a.mod_id != i.mod_id))
}

#[test]
fn default_record_has_placeholder_version_and_author() {
    let blank = GameMod::default();
    assert_eq!(blank.name, "");
    assert_eq!(blank.zip_name, "");
    assert_eq!(blank.folder_name, "");
    assert_eq!(blank.version, "0.0.0");
    assert_eq!(blank.author, "Unknown");
    assert_eq!(blank.link, "");
    assert_eq!(blank.mod_id, 0);
    assert_eq!(blank.file_id, 0);
}

#[test]
fn activate_moves_record_to_the_end_of_active() {
    let mut c = PackageCollections::new();
    c.inactive.push(record("a", 1, "1.0"));
    c.inactive.push(record("b", 2, "1.0"));
    c.inactive.push(record("c", 3, "1.0"));
    c.active.push(record("d", 4, "1.0"));
    assert!(c.activate(1, "B".to_string()));
    assert_eq!(ids(&c.inactive), vec![1, 3]);
    assert_eq!(ids(&c.active), vec![4, 2]);
    assert_eq!(c.active[1].folder_name, "B");
    assert_eq!(c.active[1].name, "b");
    assert_eq!(c.active[1].zip_name, "b.zip");
    assert_eq!(c.active[1].file_id, 3);
}

#[test]
fn activate_rejects_identifier_that_is_active() {
    let mut c = PackageCollections::new();
    c.inactive.push(record("new", 7, "2.0"));
    c.active.push(record("old", 7, "1.0"));
    assert!(c.activation_request(0).is_none());
    assert!(!c.activate(0, "X".to_string()));
    assert_eq!(ids(&c.inactive), vec![7]);
    assert_eq!(ids(&c.active), vec![7]);
    assert_eq!(c.inactive[0].folder_name, "");
    assert_eq!(c.active[0].version, "1.0");
}

#[test]
fn activate_rejects_missing_index() {
    let mut c = PackageCollections::new();
    c.inactive.push(record("a", 1, "1.0"));
    assert!(c.activation_request(1).is_none());
    assert!(!c.activate(1, "X".to_string()));
    assert!(!c.deactivate(0));
    assert!(c.deactivation_request(0).is_none());
    assert_eq!(ids(&c.inactive), vec![1]);
    assert!(c.active.is_empty());
}

#[test]
fn activate_then_deactivate_keeps_identifier_and_folder() {
    let mut c = PackageCollections::new();
    c.inactive.push(record("a", 1, "1.0"));
    c.inactive.push(record("b", 2, "1.0"));
    assert!(c.activate(0, "FolderA".to_string()));
    assert!(c.deactivate(0));
    assert!(c.active.is_empty());
    assert_eq!(ids(&c.inactive), vec![2, 1]);
    assert_eq!(c.inactive[1].mod_id, 1);
    assert_eq!(c.inactive[1].folder_name, "FolderA");
    assert_eq!(c.inactive[1].name, "a");
}

#[test]
fn no_identifier_in_both_collections_through_moves() {
    let mut c = PackageCollections::new();
    for id in 1..=5u64 {
        c.inactive.push(record("m", id, "1.0"));
    }
    assert!(no_id_in_both(&c));
    assert!(c.activate(2, "x".to_string()));
    assert!(no_id_in_both(&c));
    assert!(c.activate(0, "y".to_string()));
    assert!(no_id_in_both(&c));
    assert!(c.deactivate(0));
    assert!(no_id_in_both(&c));
    assert!(c.delete(0, true).is_some());
    assert!(no_id_in_both(&c));
    assert!(c.delete(1, false).is_some());
    assert!(no_id_in_both(&c));
    assert_eq!(ids(&c.inactive), vec![2, 5, 3]);
    assert!(c.active.is_empty());
}

#[test]
fn second_version_left_inactive_shares_the_identifier() {
    let mut c = PackageCollections::new();
    c.inactive.push(record("m", 5, "1.0"));
    c.inactive.push(record("m", 5, "2.0"));
    assert!(c.activate(0, "m".to_string()));
    assert!(!no_id_in_both(&c));
    assert!(!c.activate(0, "m".to_string()));
}

#[test]
fn requests_name_archive_folder_and_root() {
    let mut c = PackageCollections::new();
    c.inactive.push(record("a", 1, "1.0"));
    let install = c.activation_request(0).unwrap();
    assert_eq!(install.zip_name, "a.zip");
    assert_eq!(install.kind, PackageKind::Generic);
    assert_eq!(install.root, InstallRoot::ModsDir);
    assert!(c.activate(0, "FolderA/".to_string()));
    let removal = c.deactivation_request(0).unwrap();
    assert_eq!(removal.folder_name, "FolderA/");
    assert_eq!(removal.kind, PackageKind::Generic);
    assert_eq!(removal.root, InstallRoot::ModsDir);
}

#[test]
fn loader_is_installed_at_the_game_root() {
    assert_eq!(LOADER_ID, 2400);
    assert_eq!(package_kind(2400), PackageKind::LoaderDependency);
    assert_eq!(package_kind(2399), PackageKind::Generic);
    assert_eq!(package_kind(0), PackageKind::Generic);
    assert_eq!(install_root(PackageKind::LoaderDependency), InstallRoot::GameRoot);
    assert_eq!(install_root(PackageKind::Generic), InstallRoot::ModsDir);
    let mut c = PackageCollections::new();
    c.inactive.push(record("loader", 2400, "3.0"));
    let install = c.activation_request(0).unwrap();
    assert_eq!(install.kind, PackageKind::LoaderDependency);
    assert_eq!(install.root, InstallRoot::GameRoot);
    assert!(c.activate(0, "SMAPI".to_string()));
    let removal = c.deactivation_request(0).unwrap();
    assert_eq!(removal.kind, PackageKind::LoaderDependency);
    assert_eq!(removal.root, InstallRoot::GameRoot);
    assert_eq!(removal.folder_name, "SMAPI");
}

#[test]
fn delete_takes_the_record_out_and_hands_it_back() {
    let mut c = PackageCollections::new();
    c.inactive.push(record("a", 1, "1.0"));
    c.inactive.push(record("b", 2, "1.0"));
    c.active.push(record("c", 3, "1.0"));
    c.active.push(record("d", 4, "1.0"));
    let gone = c.delete(0, true).unwrap();
    assert_eq!(gone.mod_id, 3);
    assert_eq!(gone.zip_name, "c.zip");
    assert_eq!(ids(&c.inactive), vec![1, 2]);
    assert_eq!(ids(&c.active), vec![4]);
    let gone = c.delete(1, false).unwrap();
    assert_eq!(gone.mod_id, 2);
    assert_eq!(ids(&c.inactive), vec![1]);
    assert_eq!(ids(&c.active), vec![4]);
    assert!(c.delete(1, false).is_none());
    assert!(c.delete(1, true).is_none());
    assert_eq!(ids(&c.inactive), vec![1]);
    assert_eq!(ids(&c.active), vec![4]);
}
