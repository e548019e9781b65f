//! Installed packages: the record kept of each, the two collections that hold
//! them (inactive and active), and the moves between the two.

use vstd::prelude::*;
use vstd::string::*;

verus! {

/// Identifier of the loader that other packages depend on.
pub const LOADER_ID: u64 = 2400;

/// What is kept of one installed package.
#[derive(Clone, Debug)]
pub struct GameMod {
    pub name: String,
    pub zip_name: String,
    pub folder_name: String,
    pub version: String,
    pub author: String,
    pub link: String,
    pub mod_id: u64,
    pub file_id: u64,
}

/// A package record as plain values.
pub ghost struct GameModView {
    pub name: Seq<char>,
    pub zip_name: Seq<char>,
    pub folder_name: Seq<char>,
    pub version: Seq<char>,
    pub author: Seq<char>,
    pub link: Seq<char>,
    pub mod_id: u64,
    pub file_id: u64,
}

impl View for GameMod {
    type V = GameModView;

    open spec fn view(&self) -> GameModView {
        GameModView {
            name: self.name@,
            zip_name: self.zip_name@,
            folder_name: self.folder_name@,
            version: self.version@,
            author: self.author@,
            link: self.link@,
            mod_id: self.mod_id,
            file_id: self.file_id,
        }
    }
}

/// The record of a package of which nothing is known yet.
pub open spec fn blank_record() -> GameModView {
    GameModView {
        name: Seq::empty(),
        zip_name: Seq::empty(),
        folder_name: Seq::empty(),
        version: "0.0.0"@,
        author: "Unknown"@,
        link: Seq::empty(),
        mod_id: 0,
        file_id: 0,
    }
}

impl Default for GameMod {
    fn default() -> (r: Self)
        ensures
            r@ == blank_record(),
    {
        GameMod {
            name: String::new(),
            zip_name: String::new(),
            folder_name: String::new(),
            version: String::from_str("0.0.0"),
            author: String::from_str("Unknown"),
            link: String::new(),
            mod_id: 0,
            file_id: 0,
        }
    }
}

/// How a package is installed.
#[derive(Clone, Copy, Debug, PartialEq, Eq, Structural)]
pub enum PackageKind {
    /// Its archive is laid out under the mods directory.
    Generic,
    /// The loader: laid out at the game's root and set up by its own installer.
    LoaderDependency,
}

/// Directory under which a package's archive is laid out.
#[derive(Clone, Copy, Debug, PartialEq, Eq, Structural)]
pub enum InstallRoot {
    /// The `mods` directory under the game's root.
    ModsDir,
    /// The game's root itself.
    GameRoot,
}

/// Kind of the package with this identifier: the loader has one identifier
/// of its own.
pub open spec fn kind_of(mod_id: u64) -> PackageKind {
    if mod_id == LOADER_ID {
        PackageKind::LoaderDependency
    } else {
        PackageKind::Generic
    }
}

/// Directory under which a package of this kind is laid out.
pub open spec fn root_of(kind: PackageKind) -> InstallRoot {
    match kind {
        PackageKind::Generic => InstallRoot::ModsDir,
        PackageKind::LoaderDependency => InstallRoot::GameRoot,
    }
}

/// Kind of the package with this identifier.
pub fn package_kind(mod_id: u64) -> (kind: PackageKind)
    ensures
        kind == kind_of(mod_id),
{
    if mod_id == LOADER_ID {
        PackageKind::LoaderDependency
    } else {
        PackageKind::Generic
    }
}

/// Directory under which a package of this kind is laid out.
pub fn install_root(kind: PackageKind) -> (root: InstallRoot)
    ensures
        root == root_of(kind),
{
    match kind {
        PackageKind::Generic => InstallRoot::ModsDir,
        PackageKind::LoaderDependency => InstallRoot::GameRoot,
    }
}

/// The loader, and no other package, is laid out at the game's root.
pub proof fn lemma_loader_root(mod_id: u64)
    ensures
        root_of(kind_of(mod_id)) == InstallRoot::GameRoot <==> mod_id == LOADER_ID,
        root_of(kind_of(mod_id)) == InstallRoot::ModsDir <==> mod_id != LOADER_ID,
{
}

/// The records of `mods` as plain values.
pub open spec fn views(mods: Seq<GameMod>) -> Seq<GameModView> {
    mods.map_values(|m: GameMod| m@)
}

/// Whether one of `mods` has the identifier `id`.
pub open spec fn has_id(mods: Seq<GameModView>, id: u64) -> bool {
    exists|i: int| 0 <= i < mods.len() && (#[trigger] mods[i]).mod_id == id
}

/// Whether one of `mods` has the identifier `id`.
pub fn contains_id(mods: &Vec<GameMod>, id: u64) -> (r: bool)
    ensures
        r == has_id(views(mods@), id),
{
    let mut i: usize = 0;
    while i < mods.len()
        invariant
            i <= mods@.len(),
            forall|j: int| 0 <= j < i ==> (#[trigger] views(mods@)[j]).mod_id != id,
        decreases mods@.len() - i,
    {
        if mods[i].mod_id == id {
            assert(views(mods@)[i as int].mod_id == id);
            return true;
        }
        i = i + 1;
    }
    false
}

} // verus!
