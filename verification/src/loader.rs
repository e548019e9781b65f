//! The loader that other packages depend on: it is laid out at the game's
//! root, and set up and taken away by what its own archive brings.

use crate::text::{matches_at, occurs_at};
use vstd::prelude::*;
use vstd::string::*;

verus! {

/// The system that the game runs on.
#[derive(Clone, Copy, Debug, PartialEq, Eq, Structural)]
pub enum Platform {
    Windows,
    Linux,
}

/// The loader's installer, under the loader's folder.
pub const INSTALLER: &'static str = "internal/linux/SMAPI.Installer";

/// The archive of the loader's files, under the loader's folder.
pub const INSTALL_DATA: &'static str = "internal\\windows\\install.dat";

/// The game's dependency manifest, at the game's root.
pub const GAME_MANIFEST: &'static str = "Stardew Valley.deps.json";

/// The loader's dependency manifest, at the game's root.
pub const LOADER_MANIFEST: &'static str = "StardewModdingAPI.deps.json";

/// One thing to do for the loader beyond laying out or removing its folder.
/// Paths are relative to the game's root unless said otherwise.
#[derive(Clone, Debug)]
pub enum LoaderStep {
    /// Lay out, at the game's root, the archive found at `archive` under the
    /// loader's folder.
    ExtractNested { archive: String },
    /// Copy the file `from` to `to`.
    CopyFile { from: String, to: String },
    /// Run the program found at `program` under the loader's folder, write
    /// `input` to its standard input, and wait for its end where `wait`.
    RunInstaller { program: String, input: Vec<u8>, wait: bool },
    /// Remove what the archive found at `archive` under the loader's folder
    /// lists, as far as `keeps_listed` does not keep it.
    RemoveListed { archive: String },
    /// Remove the file `path` if it is there.
    RemoveFile { path: String },
}

/// A step as plain values.
pub ghost enum LoaderStepView {
    ExtractNested { archive: Seq<char> },
    CopyFile { from: Seq<char>, to: Seq<char> },
    RunInstaller { program: Seq<char>, input: Seq<u8>, wait: bool },
    RemoveListed { archive: Seq<char> },
    RemoveFile { path: Seq<char> },
}

impl View for LoaderStep {
    type V = LoaderStepView;

    open spec fn view(&self) -> LoaderStepView {
        match self {
            LoaderStep::ExtractNested { archive } => LoaderStepView::ExtractNested {
                archive: archive@,
            },
            LoaderStep::CopyFile { from, to } => LoaderStepView::CopyFile { from: from@, to: to@ },
            LoaderStep::RunInstaller { program, input, wait } => LoaderStepView::RunInstaller {
                program: program@,
                input: input@,
                wait: *wait,
            },
            LoaderStep::RemoveListed { archive } => LoaderStepView::RemoveListed {
                archive: archive@,
            },
            LoaderStep::RemoveFile { path } => LoaderStepView::RemoveFile { path: path@ },
        }
    }
}

/// The steps of `steps` as plain values.
pub open spec fn step_views(steps: Seq<LoaderStep>) -> Seq<LoaderStepView> {
    steps.map_values(|s: LoaderStep| s@)
}

/// What the installer is told: an empty line, the choice of a path of one's
/// own, the game's path, the choice to install (1) or to take away (2), and
/// an empty line.
pub open spec fn script_of(game_path: Seq<u8>, install: bool) -> Seq<u8> {
    seq![10u8, 50u8, 10u8] + game_path + seq![
        10u8,
        if install {
            49u8
        } else {
            50u8
        },
        10u8,
        10u8,
    ]
}

/// What the installer is told on its standard input.
pub fn installer_script(game_path: &str, install: bool) -> (input: Vec<u8>)
    ensures
        input@ == script_of(game_path.spec_bytes(), install),
{
    let path = game_path.as_bytes();
    let mut input: Vec<u8> = Vec::new();
    input.push(10u8);
    input.push(50u8);
    input.push(10u8);
    let n: usize = path.len();
    let mut i: usize = 0;
    while i < n
        invariant
            i <= n,
            n == path@.len(),
            input@ == seq![10u8, 50u8, 10u8] + path@.subrange(0, i as int),
        decreases n - i,
    {
        input.push(path[i]);
        i = i + 1;
        assert(input@ =~= seq![10u8, 50u8, 10u8] + path@.subrange(0, i as int));
    }
    assert(path@.subrange(0, n as int) =~= path@);
    input.push(10u8);
    input.push(if install {
        49u8
    } else {
        50u8
    });
    input.push(10u8);
    input.push(10u8);
    assert(input@ =~= script_of(game_path.spec_bytes(), install));
    input
}

/// What is done for the loader once its archive is laid out.
pub open spec fn install_steps_of(platform: Platform, game_path: Seq<u8>) -> Seq<LoaderStepView> {
    match platform {
        Platform::Windows => seq![
            LoaderStepView::ExtractNested { archive: INSTALL_DATA@ },
            LoaderStepView::CopyFile { from: GAME_MANIFEST@, to: LOADER_MANIFEST@ },
        ],
        Platform::Linux => seq![
            LoaderStepView::RunInstaller {
                program: INSTALLER@,
                input: script_of(game_path, true),
                wait: false,
            },
        ],
    }
}

/// What is done for the loader before its folder is removed.
pub open spec fn removal_steps_of(platform: Platform, game_path: Seq<u8>) -> Seq<LoaderStepView> {
    match platform {
        Platform::Windows => seq![
            LoaderStepView::RemoveListed { archive: INSTALL_DATA@ },
            LoaderStepView::RemoveFile { path: LOADER_MANIFEST@ },
        ],
        Platform::Linux => seq![
            LoaderStepView::RunInstaller {
                program: INSTALLER@,
                input: script_of(game_path, false),
                wait: true,
            },
        ],
    }
}

/// What is done for the loader once its archive is laid out at the game's
/// root.
pub fn loader_install_steps(platform: Platform, game_path: &str) -> (steps: Vec<LoaderStep>)
    ensures
        step_views(steps@) == install_steps_of(platform, game_path.spec_bytes()),
{
    let mut steps: Vec<LoaderStep> = Vec::new();
    match platform {
        Platform::Windows => {
            steps.push(LoaderStep::ExtractNested { archive: String::from_str(INSTALL_DATA) });
            steps.push(
                LoaderStep::CopyFile {
                    from: String::from_str(GAME_MANIFEST),
                    to: String::from_str(LOADER_MANIFEST),
                },
            );
        },
        Platform::Linux => {
            steps.push(
                LoaderStep::RunInstaller {
                    program: String::from_str(INSTALLER),
                    input: installer_script(game_path, true),
                    wait: false,
                },
            );
        },
    }
    assert(step_views(steps@) =~= install_steps_of(platform, game_path.spec_bytes()));
    steps
}

/// What is done for the loader before its folder is removed from the game's
/// root.
pub fn loader_removal_steps(platform: Platform, game_path: &str) -> (steps: Vec<LoaderStep>)
    ensures
        step_views(steps@) == removal_steps_of(platform, game_path.spec_bytes()),
{
    let mut steps: Vec<LoaderStep> = Vec::new();
    match platform {
        Platform::Windows => {
            steps.push(LoaderStep::RemoveListed { archive: String::from_str(INSTALL_DATA) });
            steps.push(LoaderStep::RemoveFile { path: String::from_str(LOADER_MANIFEST) });
        },
        Platform::Linux => {
            steps.push(
                LoaderStep::RunInstaller {
                    program: String::from_str(INSTALLER),
                    input: installer_script(game_path, false),
                    wait: true,
                },
            );
        },
    }
    assert(step_views(steps@) =~= removal_steps_of(platform, game_path.spec_bytes()));
    steps
}

/// Taking the loader away never comes down to removing its folder alone: its
/// installer is run and waited for, or what its archive lists is removed.
pub proof fn lemma_loader_removal_uses_installer(platform: Platform, game_path: Seq<u8>)
    ensures
        removal_steps_of(platform, game_path).len() > 0,
        platform == Platform::Linux ==> removal_steps_of(platform, game_path)[0]
            == (LoaderStepView::RunInstaller {
            program: INSTALLER@,
            input: script_of(game_path, false),
            wait: true,
        }),
        platform == Platform::Windows ==> removal_steps_of(platform, game_path)[0]
            == (LoaderStepView::RemoveListed { archive: INSTALL_DATA@ }),
{
}

/// Whether an entry that the loader's archive lists stays when the loader is
/// taken away: what lies under `Mods` is not the loader's to remove.
pub open spec fn keeps_listed(name: Seq<char>) -> bool {
    occurs_at(name, "Mods"@, 0)
}

/// Whether the entry `name` of the loader's archive stays when the loader is
/// taken away.
pub fn is_kept(name: &str) -> (r: bool)
    ensures
        r == keeps_listed(name@),
{
    let mark = "Mods";
    if name.unicode_len() < mark.unicode_len() {
        return false;
    }
    matches_at(name, mark, 0)
}

/// The listed entries as plain values.
pub open spec fn listed_views(entries: Seq<(String, bool)>) -> Seq<(Seq<char>, bool)> {
    entries.map_values(|e: (String, bool)| (e.0@, e.1))
}

/// Of what the loader's archive lists, each with whether it is a directory,
/// that which is removed when the loader is taken away, in the same order.
pub fn loader_removals(entries: &Vec<(String, bool)>) -> (gone: Vec<(String, bool)>)
    ensures
        listed_views(gone@) == listed_views(entries@).filter(
            |e: (Seq<char>, bool)| !keeps_listed(e.0),
        ),
{
    let n: usize = entries.len();
    let ghost all = listed_views(entries@);
    let ghost goes = |e: (Seq<char>, bool)| !keeps_listed(e.0);
    let mut gone: Vec<(String, bool)> = Vec::new();
    let mut i: usize = 0;
    proof {
        reveal(Seq::filter);
        assert(all.take(0) =~= Seq::<(Seq<char>, bool)>::empty());
    }
    while i < n
        invariant
            i <= n,
            n == entries@.len(),
            all == listed_views(entries@),
            goes == (|e: (Seq<char>, bool)| !keeps_listed(e.0)),
            listed_views(gone@) == all.take(i as int).filter(goes),
        decreases n - i,
    {
        let entry = &entries[i];
        let ghost before = listed_views(gone@);
        proof {
            reveal(Seq::filter);
            assert(all.take(i + 1).drop_last() =~= all.take(i as int));
            assert(all.take(i + 1).last() == (entry.0@, entry.1));
        }
        if !is_kept(entry.0.as_str()) {
            gone.push((entry.0.clone(), entry.1));
            assert(listed_views(gone@) =~= before.push((entry.0@, entry.1)));
        }
        i = i + 1;
    }
    assert(all.take(n as int) =~= all);
    gone
}

} // verus!
