use sdmm::collections::PackageCollections;
use sdmm::details::{resolved_version, ModDetails, ModFileDetails};
use sdmm::legacy::{find_file_id, migrate_record, DepGameMod};
use sdmm::package::GameMod;
use sdmm::registry::{DownloadProgress, DownloadRegistry};
use sdmm::resolver::{
    complete_download, contains_version, file_details_url, files_url, mod_details_url,
    mod_page_link, resolve_metadata, Resolution,
};
use sdmm::token::BASE_URI;

fn details(name: &str, author: &str) -> ModDetails {
    let mut d = ModDetails::default();
    d.name = name.to_string();
    d.author = author.to_string();
    d
}

fn file(version: Option<&str>) -> ModFileDetails {
    ModFileDetails { version: version.map(|v| v.to_string()), file_id: Some(5678), file_name: None }
}

fn listed(name: &str, version: &str, id: Option<u64>) -> ModFileDetails {
    ModFileDetails {
        version: Some(version.to_string()),
        file_id: id,
        file_name: Some(name.to_string()),
    }
}

#[test]
fn default_details_tell_nothing() {
    let d = ModDetails::default();
    assert_eq!(d.name, "");
    assert_eq!(d.author, "");
    assert_eq!(d.version, "");
    assert_eq!(d.summary, None);
    assert_eq!(d.mod_id, 0);
    assert!(!d.available);
}

#[test]
fn addresses_of_the_remote_service() {
    assert_eq!(
        mod_details_url(BASE_URI, 1234),
        "https://api.nexusmods.com/v1/games//stardewvalley/mods/1234.json"
    );
    assert_eq!(
        file_details_url(BASE_URI, 1234, 5678),
        "https://api.nexusmods.com/v1/games//stardewvalley/mods/1234/files/5678.json"
    );
    assert_eq!(
        files_url(BASE_URI, 2400),
        "https://api.nexusmods.com/v1/games//stardewvalley/mods/2400/files.json"
    );
    assert_eq!(mod_page_link(0), "https://www.nexusmods.com/stardewvalley/mods/0");
    assert_eq!(mod_details_url("h", u64::MAX), "https://h/stardewvalley/mods/18446744073709551615.json");
}

#[test]
fn missing_version_is_zero() {
    assert_eq!(resolved_version(&file(None)), "0");
    assert_eq!(resolved_version(&file(Some("1.2.3"))), "1.2.3");
    assert_eq!(resolved_version(&file(Some(""))), "");
}

#[test]
fn resolving_enters_one_inactive_record() {
    let mut c = PackageCollections::new();
    assert!(resolve_metadata(&mut c, "File.zip", 1234, 5678, &details("Mod", "Ann"), &file(Some("1.5"))));
    assert_eq!(c.inactive.len(), 1);
    assert!(c.active.is_empty());
    let r = &c.inactive[0];
    assert_eq!(r.name, "Mod");
    assert_eq!(r.zip_name, "File.zip");
    assert_eq!(r.folder_name, "");
    assert_eq!(r.version, "1.5");
    assert_eq!(r.author, "Ann");
    assert_eq!(r.link, "https://www.nexusmods.com/stardewvalley/mods/1234");
    assert_eq!(r.mod_id, 1234);
    assert_eq!(r.file_id, 5678);
}

#[test]
fn resolving_a_known_version_makes_no_second_record() {
    let mut c = PackageCollections::new();
    assert!(resolve_metadata(&mut c, "File.zip", 1234, 5678, &details("Mod", "Ann"), &file(Some("1.5"))));
    assert!(!resolve_metadata(&mut c, "File.zip", 1234, 5678, &details("Mod", "Ann"), &file(Some("1.5"))));
    assert!(!resolve_metadata(&mut c, "Other.zip", 1234, 1, &details("X", "Y"), &file(Some("1.5"))));
    assert_eq!(c.inactive.len(), 1);
    assert!(c.activate(0, "Mod".to_string()));
    assert!(!resolve_metadata(&mut c, "File.zip", 1234, 5678, &details("Mod", "Ann"), &file(Some("1.5"))));
    assert!(c.inactive.is_empty());
    assert_eq!(c.active.len(), 1);
}

#[test]
fn another_version_or_identifier_is_entered() {
    let mut c = PackageCollections::new();
    assert!(resolve_metadata(&mut c, "a.zip", 1, 1, &details("A", "a"), &file(Some("1.0"))));
    assert!(resolve_metadata(&mut c, "b.zip", 1, 2, &details("A", "a"), &file(Some("2.0"))));
    assert!(resolve_metadata(&mut c, "c.zip", 2, 3, &details("B", "b"), &file(Some("1.0"))));
    assert!(resolve_metadata(&mut c, "d.zip", 3, 4, &details("C", "c"), &file(None)));
    assert!(!resolve_metadata(&mut c, "e.zip", 3, 5, &details("C", "c"), &file(Some("0"))));
    assert_eq!(c.inactive.len(), 4);
    assert_eq!(c.inactive[3].version, "0");
}

#[test]
fn versions_are_looked_up_with_the_identifier() {
    let mut mods: Vec<GameMod> = Vec::new();
    let mut m = GameMod::default();
    m.mod_id = 9;
    m.version = "1.0".to_string();
    mods.push(m);
    assert!(contains_version(&mods, 9, "1.0"));
    assert!(!contains_version(&mods, 9, "1.1"));
    assert!(!contains_version(&mods, 8, "1.0"));
    assert!(!contains_version(&Vec::new(), 9, "1.0"));
}

#[test]
fn only_a_finished_download_gets_its_record() {
    let mut c = PackageCollections::new();
    let mut registry = DownloadRegistry::new();
    let d = details("Mod", "Ann");
    let f = file(Some("1.5"));
    assert_eq!(complete_download(&mut c, &mut registry, "File.zip", &d, &f), Resolution::NotPending);
    registry.record_progress(DownloadProgress {
        file_name: "File.zip".to_string(),
        bytes_downloaded: 500,
        total_bytes: 1000,
        mod_id: 1234,
        file_id: 5678,
    });
    assert_eq!(complete_download(&mut c, &mut registry, "File.zip", &d, &f), Resolution::NotPending);
    assert!(c.inactive.is_empty());
    registry.record_progress(DownloadProgress {
        file_name: "File.zip".to_string(),
        bytes_downloaded: 1000,
        total_bytes: 1000,
        mod_id: 1234,
        file_id: 5678,
    });
    assert_eq!(complete_download(&mut c, &mut registry, "File.zip", &d, &f), Resolution::Added);
    assert_eq!(c.inactive.len(), 1);
    assert_eq!(c.inactive[0].mod_id, 1234);
    assert_eq!(c.inactive[0].file_id, 5678);
    assert!(registry.get("File.zip").unwrap().metadata_saved);
    assert_eq!(complete_download(&mut c, &mut registry, "File.zip", &d, &f), Resolution::NotPending);
    assert_eq!(c.inactive.len(), 1);
}

#[test]
fn a_known_package_leaves_the_download_waiting() {
    let mut c = PackageCollections::new();
    let mut registry = DownloadRegistry::new();
    assert!(resolve_metadata(&mut c, "File.zip", 1234, 5678, &details("Mod", "Ann"), &file(Some("1.5"))));
    registry.record_progress(DownloadProgress {
        file_name: "Again.zip".to_string(),
        bytes_downloaded: 10,
        total_bytes: 10,
        mod_id: 1234,
        file_id: 5678,
    });
    let outcome = complete_download(&mut c, &mut registry, "Again.zip", &details("Mod", "Ann"), &file(Some("1.5")));
    assert_eq!(outcome, Resolution::AlreadyKnown);
    assert_eq!(c.inactive.len(), 1);
    assert!(!registry.get("Again.zip").unwrap().metadata_saved);
}

#[test]
fn earlier_records_get_their_file_identifier() {
    let old = DepGameMod {
        name: "Mod".to_string(),
        zip_name: "Mod.zip".to_string(),
        folder_name: "Mod".to_string(),
        version: "1.0".to_string(),
        author: "Ann".to_string(),
        link: "l".to_string(),
        id: 42,
    };
    let files = vec![
        listed("Other.zip", "1.0", Some(1)),
        listed("Mod.zip", "0.9", Some(2)),
        listed("Mod.zip", "1.0", Some(3)),
        listed("Mod.zip", "1.0", Some(4)),
    ];
    let r = migrate_record(old.clone(), &files);
    assert_eq!(r.name, "Mod");
    assert_eq!(r.zip_name, "Mod.zip");
    assert_eq!(r.folder_name, "Mod");
    assert_eq!(r.version, "1.0");
    assert_eq!(r.author, "Ann");
    assert_eq!(r.link, "l");
    assert_eq!(r.mod_id, 42);
    assert_eq!(r.file_id, 3);
    assert_eq!(migrate_record(old.clone(), &Vec::new()).file_id, 0);
    assert_eq!(migrate_record(old.clone(), &vec![listed("Mod.zip", "1.0", None)]).file_id, 0);
    assert_eq!(find_file_id(&vec![file(Some("1.0"))], "Mod.zip", "1.0"), 0);
    assert_eq!(
        find_file_id(&vec![listed("Mod.zip", "1.0", None), listed("Mod.zip", "1.0", Some(9))], "Mod.zip", "1.0"),
        0
    );
}
