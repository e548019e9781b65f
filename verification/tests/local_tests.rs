use sdmm::collections::PackageCollections;
use sdmm::loader::{
    installer_script, is_kept, loader_install_steps, loader_removal_steps, loader_removals,
    LoaderStep, Platform,
};
use sdmm::local::{accepts_dropped, add_local, next_local_id, HIGH};
use sdmm::package::GameMod;
use sdmm::setup::setup;
use sdmm::startup::startup;

fn with_id(id: u64) -> GameMod {
    let mut m = GameMod::default();
    m.mod_id = id;
    m
}

#[test]
fn archives_and_files_without_extension_are_taken() {
    assert!(accepts_dropped("Mod.zip"));
    assert!(accepts_dropped("Mod"));
    assert!(accepts_dropped(".hidden"));
    assert!(accepts_dropped(".."));
    assert!(accepts_dropped("a.b.zip"));
    assert!(!accepts_dropped("Mod.rar"));
    assert!(!accepts_dropped("Mod.ZIP"));
    assert!(!accepts_dropped("Mod.zip.txt"));
    assert!(!accepts_dropped("Mod."));
    assert!(!accepts_dropped(".hidden.txt"));
}

#[test]
fn local_identifiers_begin_high() {
    assert_eq!(HIGH, u64::MAX - 10000);
    let mut c = PackageCollections::new();
    assert_eq!(next_local_id(&c), Some(HIGH));
    c.inactive.push(with_id(5));
    c.active.push(with_id(2400));
    assert_eq!(next_local_id(&c), Some(HIGH));
}

#[test]
fn local_identifier_is_the_least_that_no_package_has() {
    let mut c = PackageCollections::new();
    c.inactive.push(with_id(HIGH));
    c.inactive.push(with_id(HIGH + 1));
    c.active.push(with_id(HIGH + 2));
    assert_eq!(next_local_id(&c), Some(HIGH + 3));
    let mut d = PackageCollections::new();
    d.inactive.push(with_id(HIGH + 1));
    d.inactive.push(with_id(HIGH));
    assert_eq!(next_local_id(&d), Some(HIGH + 2));
    let mut e = PackageCollections::new();
    e.active.push(with_id(u64::MAX));
    assert_eq!(next_local_id(&e), Some(HIGH));
    let mut f = PackageCollections::new();
    f.active.push(with_id(HIGH + 1));
    f.active.push(with_id(HIGH));
    assert_eq!(next_local_id(&f), Some(HIGH + 2));
    let mut g = PackageCollections::new();
    g.inactive.push(with_id(HIGH));
    g.active.push(with_id(HIGH + 2));
    assert_eq!(next_local_id(&g), Some(HIGH + 1));
}

#[test]
fn handed_over_archive_becomes_an_inactive_record() {
    let mut c = PackageCollections::new();
    assert_eq!(add_local(&mut c, "Mod.zip"), Some(HIGH));
    assert_eq!(add_local(&mut c, "Other.zip"), Some(HIGH + 1));
    assert_eq!(c.inactive.len(), 2);
    assert!(c.active.is_empty());
    let r = &c.inactive[1];
    assert_eq!(r.name, "Other.zip");
    assert_eq!(r.zip_name, "Other.zip");
    assert_eq!(r.folder_name, "");
    assert_eq!(r.version, "0.0.0");
    assert_eq!(r.author, "Unknown");
    assert_eq!(r.link, "");
    assert_eq!(r.mod_id, HIGH + 1);
    assert_eq!(r.file_id, HIGH + 1);
}

#[test]
fn handed_over_archive_never_shares_an_identifier() {
    let mut c = PackageCollections::new();
    assert_eq!(add_local(&mut c, "First.zip"), Some(HIGH));
    assert_eq!(add_local(&mut c, "Second.zip"), Some(HIGH + 1));
    assert!(c.activate(1, "Second".to_string()));
    assert!(c.activate(0, "First".to_string()));
    let active: Vec<u64> = c.active.iter().map(|m| m.mod_id).collect();
    assert_eq!(active, vec![HIGH + 1, HIGH]);
    assert_eq!(add_local(&mut c, "Third.zip"), Some(HIGH + 2));
    assert_eq!(c.inactive.len(), 1);
    assert_eq!(c.inactive[0].name, "Third.zip");
    assert!(c.active.iter().all(|a| a.mod_id != c.inactive[0].mod_id));
    assert!(c.delete(0, true).is_some());
    assert_eq!(add_local(&mut c, "Fourth.zip"), Some(HIGH + 1));
    assert!(c.active.iter().all(|a| c.inactive.iter().all(|i| i.mod_id != a.mod_id)));
}

#[test]
fn no_identifier_is_given_where_all_are_taken() {
    let mut c = PackageCollections::new();
    for id in HIGH..=u64::MAX {
        if id % 2 == 0 {
            c.inactive.push(with_id(id));
        } else {
            c.active.push(with_id(id));
        }
    }
    assert_eq!(c.inactive.len() + c.active.len(), 10001);
    assert_eq!(next_local_id(&c), None);
    assert_eq!(add_local(&mut c, "Late.zip"), None);
    assert_eq!(c.inactive.len() + c.active.len(), 10001);
    assert!(c.inactive.iter().all(|m| m.name.is_empty()));
    assert!(c.delete(0, true).is_some());
    assert_eq!(add_local(&mut c, "Late.zip"), Some(HIGH));
    assert_eq!(next_local_id(&c), None);
}

#[test]
fn given_token_counts_before_the_kept_one() {
    let s = startup("nxm://given", "nxm://kept", "key");
    assert_eq!(s.resume, Some("nxm://given".to_string()));
    assert!(!s.needs_key);
    assert_eq!(s.last_download, "");
    let s = startup("", "nxm://kept", "key");
    assert_eq!(s.resume, Some("nxm://kept".to_string()));
    assert_eq!(s.last_download, "");
    let s = startup("", "", "key");
    assert_eq!(s.resume, None);
    assert!(!s.needs_key);
}

#[test]
fn token_is_kept_while_there_is_no_key() {
    let s = startup("nxm://given", "nxm://kept", "");
    assert!(s.needs_key);
    assert_eq!(s.resume, Some("nxm://given".to_string()));
    assert_eq!(s.last_download, "nxm://given");
    let s = startup("", "", "");
    assert!(s.needs_key);
    assert_eq!(s.resume, None);
    assert_eq!(s.last_download, "");
}

#[test]
fn handler_is_registered_once() {
    assert!(setup(false, true, "C:\\sdmm.exe").is_none());
    assert!(setup(false, false, "C:\\sdmm.exe").is_some());
    assert!(setup(true, true, "C:\\sdmm.exe").is_some());
    assert!(setup(true, false, "C:\\sdmm.exe").is_some());
}

#[test]
fn registration_writes_four_values() {
    let values = setup(false, false, "\\\\?\\C:\\Games\\sdmm.exe").unwrap();
    let seen: Vec<(String, String, String)> =
        values.iter().map(|v| (v.key.clone(), v.name.clone(), v.value.clone())).collect();
    assert_eq!(
        seen,
        vec![
            ("SOFTWARE\\Classes\\nxm".to_string(), "".to_string(), "URL:NexusMods".to_string()),
            ("SOFTWARE\\Classes\\nxm".to_string(), "URL Protocol".to_string(), "".to_string()),
            ("SOFTWARE\\Classes\\nxm\\DefaultIcon".to_string(), "".to_string(), "".to_string()),
            (
                "SOFTWARE\\Classes\\nxm\\shell\\open\\command".to_string(),
                "".to_string(),
                "\"C:\\Games\\sdmm.exe\" \"%1\"".to_string()
            ),
        ]
    );
    let plain = setup(true, true, "C:\\sdmm.exe").unwrap();
    assert_eq!(plain[3].value, "\"C:\\sdmm.exe\" \"%1\"");
    let short = setup(true, true, "\\\\?").unwrap();
    assert_eq!(short[3].value, "\"\\\\?\" \"%1\"");
}

#[test]
fn installer_is_told_path_and_choice() {
    assert_eq!(installer_script("/games/sv", true), b"\n2\n/games/sv\n1\n\n".to_vec());
    assert_eq!(installer_script("/games/sv", false), b"\n2\n/games/sv\n2\n\n".to_vec());
    assert_eq!(installer_script("", true), b"\n2\n\n1\n\n".to_vec());
}

#[test]
fn loader_steps_by_platform() {
    let steps = loader_install_steps(Platform::Linux, "/g");
    assert_eq!(steps.len(), 1);
    assert!(matches!(
        &steps[0],
        LoaderStep::RunInstaller { program, input, wait }
            if program == "internal/linux/SMAPI.Installer" && input == b"\n2\n/g\n1\n\n" && !*wait
    ));
    let steps = loader_removal_steps(Platform::Linux, "/g");
    assert_eq!(steps.len(), 1);
    assert!(matches!(
        &steps[0],
        LoaderStep::RunInstaller { program, input, wait }
            if program == "internal/linux/SMAPI.Installer" && input == b"\n2\n/g\n2\n\n" && *wait
    ));
    let steps = loader_install_steps(Platform::Windows, "C:\\g");
    assert_eq!(steps.len(), 2);
    assert!(matches!(&steps[0], LoaderStep::ExtractNested { archive } if archive == "internal\\windows\\install.dat"));
    assert!(matches!(
        &steps[1],
        LoaderStep::CopyFile { from, to }
            if from == "Stardew Valley.deps.json" && to == "StardewModdingAPI.deps.json"
    ));
    let steps = loader_removal_steps(Platform::Windows, "C:\\g");
    assert_eq!(steps.len(), 2);
    assert!(matches!(&steps[0], LoaderStep::RemoveListed { archive } if archive == "internal\\windows\\install.dat"));
    assert!(matches!(&steps[1], LoaderStep::RemoveFile { path } if path == "StardewModdingAPI.deps.json"));
}

#[test]
fn what_lies_under_mods_stays() {
    assert!(is_kept("Mods/ConsoleCommands/content.json"));
    assert!(is_kept("Mods"));
    assert!(is_kept("ModsExtra"));
    assert!(!is_kept("mods/x"));
    assert!(!is_kept("Mod"));
    assert!(!is_kept("smapi-internal/Mods"));
    let listed = vec![
        ("StardewModdingAPI.exe".to_string(), false),
        ("Mods/".to_string(), true),
        ("Mods/SaveBackup/content.json".to_string(), false),
        ("smapi-internal/".to_string(), true),
    ];
    assert_eq!(
        loader_removals(&listed),
        vec![("StardewModdingAPI.exe".to_string(), false), ("smapi-internal/".to_string(), true)]
    );
    assert_eq!(loader_removals(&Vec::new()), Vec::new());
}
