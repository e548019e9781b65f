//! The two collections of installed packages and the moves between them.
//!
//! The files of a package are laid out and removed by the caller; what is
//! decided here is whether a move may happen, what the caller has to do for
//! it, and what the collections hold afterwards.

use crate::package::{
    contains_id, has_id, install_root, kind_of, package_kind, root_of, views, GameMod,
    GameModView, InstallRoot, PackageKind,
};
use vstd::prelude::*;
use vstd::string::*;

verus! {

/// The installed packages: those laid out in the game, and those that are not.
#[derive(Clone, Debug)]
pub struct PackageCollections {
    pub inactive: Vec<GameMod>,
    pub active: Vec<GameMod>,
}

/// The collections as plain values.
pub ghost struct CollectionsView {
    pub inactive: Seq<GameModView>,
    pub active: Seq<GameModView>,
}

impl View for PackageCollections {
    type V = CollectionsView;

    open spec fn view(&self) -> CollectionsView {
        CollectionsView { inactive: views(self.inactive@), active: views(self.active@) }
    }
}

/// No identifier occurs twice among `mods`.
pub open spec fn unique(mods: Seq<GameModView>) -> bool {
    forall|i: int, j: int|
        0 <= i < mods.len() && 0 <= j < mods.len() && i != j ==> (#[trigger] mods[i]).mod_id != (
        #[trigger] mods[j]).mod_id
}

/// No identifier occurs both among the inactive and among the active packages.
pub open spec fn disjoint(c: CollectionsView) -> bool {
    forall|i: int, j: int|
        0 <= i < c.inactive.len() && 0 <= j < c.active.len() ==> (#[trigger] c.inactive[i]).mod_id
            != (#[trigger] c.active[j]).mod_id
}

/// No identifier occurs twice in the two collections taken together.
pub open spec fn distinct(c: CollectionsView) -> bool {
    unique(c.inactive) && unique(c.active) && disjoint(c)
}

/// `m` with its folder name set.
pub open spec fn with_folder(m: GameModView, folder: Seq<char>) -> GameModView {
    GameModView { folder_name: folder, ..m }
}

/// Whether the inactive package at `index` may become active: it exists and
/// no active package has its identifier.
pub open spec fn can_activate(c: CollectionsView, index: int) -> bool {
    0 <= index < c.inactive.len() && !has_id(c.active, c.inactive[index].mod_id)
}

/// The collections once the inactive package at `index` has become active,
/// laid out in `folder`.
pub open spec fn activated(c: CollectionsView, index: int, folder: Seq<char>) -> CollectionsView {
    CollectionsView {
        inactive: c.inactive.remove(index),
        active: c.active.push(with_folder(c.inactive[index], folder)),
    }
}

/// Whether there is an active package at `index`.
pub open spec fn can_deactivate(c: CollectionsView, index: int) -> bool {
    0 <= index < c.active.len()
}

/// The collections once the active package at `index` has become inactive.
pub open spec fn deactivated(c: CollectionsView, index: int) -> CollectionsView {
    CollectionsView {
        inactive: c.inactive.push(c.active[index]),
        active: c.active.remove(index),
    }
}

/// What the caller lays out to make a package active.
#[derive(Clone, Debug)]
pub struct InstallRequest {
    /// Name of the package's archive in the download directory.
    pub zip_name: String,
    pub kind: PackageKind,
    pub root: InstallRoot,
}

/// What the caller removes to make a package inactive.
#[derive(Clone, Debug)]
pub struct RemovalRequest {
    /// Folder of the package under `root`.
    pub folder_name: String,
    pub kind: PackageKind,
    pub root: InstallRoot,
}

impl PackageCollections {
    /// Collections without a package.
    pub fn new() -> (c: Self)
        ensures
            c@.inactive.len() == 0,
            c@.active.len() == 0,
            distinct(c@),
    {
        PackageCollections { inactive: Vec::new(), active: Vec::new() }
    }

    /// What has to be laid out before the inactive package at `index` can
    /// become active; `None` where it cannot.
    pub fn activation_request(&self, index: usize) -> (r: Option<InstallRequest>)
        ensures
            r is Some == can_activate(self@, index as int),
            match r {
                Some(req) => {
                    &&& req.zip_name@ == self@.inactive[index as int].zip_name
                    &&& req.kind == kind_of(self@.inactive[index as int].mod_id)
                    &&& req.root == root_of(req.kind)
                },
                None => true,
            },
    {
        if index >= self.inactive.len() {
            return None;
        }
        let record = &self.inactive[index];
        assert(views(self.inactive@)[index as int] == record@);
        if contains_id(&self.active, record.mod_id) {
            return None;
        }
        let kind = package_kind(record.mod_id);
        Some(InstallRequest { zip_name: record.zip_name.clone(), kind, root: install_root(kind) })
    }

    /// Moves the inactive package at `index` to the end of the active ones and
    /// records the folder it was laid out in. Nothing changes where the
    /// package may not become active.
    pub fn activate(&mut self, index: usize, folder_name: String) -> (moved: bool)
        ensures
            moved == can_activate(old(self)@, index as int),
            final(self)@ == if moved {
                activated(old(self)@, index as int, folder_name@)
            } else {
                old(self)@
            },
            distinct(old(self)@) ==> distinct(final(self)@),
    {
        if index >= self.inactive.len() {
            return false;
        }
        let ghost before = self@;
        proof {
            if distinct(before) && can_activate(before, index as int) {
                lemma_activate_keeps_distinct(before, index as int, folder_name@);
            }
        }
        assert(views(self.inactive@)[index as int] == self.inactive@[index as int]@);
        if contains_id(&self.active, self.inactive[index].mod_id) {
            return false;
        }
        let mut record = self.inactive.remove(index);
        record.folder_name = folder_name;
        self.active.push(record);
        assert(self@.inactive =~= before.inactive.remove(index as int));
        assert(self@.active =~= before.active.push(
            with_folder(before.inactive[index as int], folder_name@),
        ));
        true
    }

    /// What has to be removed before the active package at `index` can become
    /// inactive; `None` where there is no such package.
    pub fn deactivation_request(&self, index: usize) -> (r: Option<RemovalRequest>)
        ensures
            r is Some == can_deactivate(self@, index as int),
            match r {
                Some(req) => {
                    &&& req.folder_name@ == self@.active[index as int].folder_name
                    &&& req.kind == kind_of(self@.active[index as int].mod_id)
                    &&& req.root == root_of(req.kind)
                },
                None => true,
            },
    {
        if index >= self.active.len() {
            return None;
        }
        let record = &self.active[index];
        assert(views(self.active@)[index as int] == record@);
        let kind = package_kind(record.mod_id);
        Some(
            RemovalRequest {
                folder_name: record.folder_name.clone(),
                kind,
                root: install_root(kind),
            },
        )
    }

    /// Moves the active package at `index` to the end of the inactive ones.
    /// Nothing changes where there is no such package.
    pub fn deactivate(&mut self, index: usize) -> (moved: bool)
        ensures
            moved == can_deactivate(old(self)@, index as int),
            final(self)@ == if moved {
                deactivated(old(self)@, index as int)
            } else {
                old(self)@
            },
            distinct(old(self)@) ==> distinct(final(self)@),
    {
        if index >= self.active.len() {
            return false;
        }
        let ghost before = self@;
        proof {
            if distinct(before) {
                lemma_deactivate_keeps_distinct(before, index as int);
            }
        }
        let record = self.active.remove(index);
        assert(record@ == before.active[index as int]);
        self.inactive.push(record);
        assert(self@.active =~= before.active.remove(index as int));
        assert(self@.inactive =~= before.inactive.push(before.active[index as int]));
        true
    }
}

/// The collections once a package has been taken out of them: the active one
/// at `index` where `is_active`, else the inactive one at `index`.
pub open spec fn deleted(c: CollectionsView, index: int, is_active: bool) -> CollectionsView {
    if is_active {
        CollectionsView { inactive: c.inactive, active: c.active.remove(index) }
    } else {
        CollectionsView { inactive: c.inactive.remove(index), active: c.active }
    }
}

/// Whether there is a package at `index` of the collection that `is_active`
/// names.
pub open spec fn can_delete(c: CollectionsView, index: int, is_active: bool) -> bool {
    if is_active {
        0 <= index < c.active.len()
    } else {
        0 <= index < c.inactive.len()
    }
}

impl PackageCollections {
    /// Takes a package out of the collections and hands its record back, so
    /// that the caller can remove its archive. An active package is made
    /// inactive first. Nothing changes where there is no such package.
    pub fn delete(&mut self, index: usize, is_active: bool) -> (r: Option<GameMod>)
        ensures
            r is Some == can_delete(old(self)@, index as int, is_active),
            match r {
                Some(record) => {
                    &&& final(self)@ == deleted(old(self)@, index as int, is_active)
                    &&& record@ == if is_active {
                        old(self)@.active[index as int]
                    } else {
                        old(self)@.inactive[index as int]
                    }
                },
                None => final(self)@ == old(self)@,
            },
            distinct(old(self)@) ==> distinct(final(self)@),
    {
        let ghost before = self@;
        proof {
            if distinct(before) && can_delete(before, index as int, is_active) {
                lemma_delete_keeps_distinct(before, index as int, is_active);
            }
        }
        let mut at: usize = index;
        if is_active {
            if !self.deactivate(index) {
                return None;
            }
            assert(self@.inactive.len() == self.inactive@.len());
            at = self.inactive.len() - 1;
        } else if index >= self.inactive.len() {
            return None;
        }
        let ghost between = self@;
        let record = self.inactive.remove(at);
        assert(record@ == between.inactive[at as int]);
        assert(self@.inactive =~= between.inactive.remove(at as int));
        proof {
            if is_active {
                assert(between.inactive.remove(at as int) =~= before.inactive);
            }
        }
        Some(record)
    }
}

/// Where no identifier occurs twice, none occurs in both collections.
pub proof fn lemma_distinct_is_disjoint(c: CollectionsView)
    requires
        distinct(c),
    ensures
        disjoint(c),
{
}

/// Making a package active leaves no identifier in both collections exactly
/// where no other inactive package shares the identifier of the one that
/// moved.
pub proof fn lemma_activate_disjoint(c: CollectionsView, index: int, folder: Seq<char>)
    requires
        disjoint(c),
        can_activate(c, index),
    ensures
        disjoint(activated(c, index, folder)) <==> !has_id(
            c.inactive.remove(index),
            c.inactive[index].mod_id,
        ),
{
    let after = activated(c, index, folder);
    let id = c.inactive[index].mod_id;
    let last = after.active.len() - 1;
    assert(after.active[last].mod_id == id);
    if has_id(after.inactive, id) {
        let i = choose|i: int| 0 <= i < after.inactive.len() && after.inactive[i].mod_id == id;
        assert(after.inactive[i].mod_id == after.active[last].mod_id);
    } else {
        assert forall|i: int, j: int|
            0 <= i < after.inactive.len() && 0 <= j < after.active.len() implies (
        #[trigger] after.inactive[i]).mod_id != (#[trigger] after.active[j]).mod_id by {
            let k = if i < index {
                i
            } else {
                i + 1
            };
            assert(after.inactive[i] == c.inactive[k]);
            if j < last {
                assert(after.active[j] == c.active[j]);
            }
        }
    }
}

/// Where no identifier occurs twice, making a package active keeps it so.
pub proof fn lemma_activate_keeps_distinct(c: CollectionsView, index: int, folder: Seq<char>)
    requires
        distinct(c),
        can_activate(c, index),
    ensures
        distinct(activated(c, index, folder)),
{
    let after = activated(c, index, folder);
    let id = c.inactive[index].mod_id;
    let last = after.active.len() - 1;
    assert forall|i: int| 0 <= i < after.inactive.len() implies (#[trigger] after.inactive[i])
        == c.inactive[if i < index {
        i
    } else {
        i + 1
    }] by {}
    assert(!has_id(after.inactive, id)) by {
        if has_id(after.inactive, id) {
            let i = choose|i: int| 0 <= i < after.inactive.len() && after.inactive[i].mod_id == id;
            let k = if i < index {
                i
            } else {
                i + 1
            };
            assert(c.inactive[k].mod_id == c.inactive[index].mod_id);
        }
    }
    lemma_activate_disjoint(c, index, folder);
    assert forall|i: int, j: int|
        0 <= i < after.inactive.len() && 0 <= j < after.inactive.len() && i != j implies (
    #[trigger] after.inactive[i]).mod_id != (#[trigger] after.inactive[j]).mod_id by {
        let ki = if i < index {
            i
        } else {
            i + 1
        };
        let kj = if j < index {
            j
        } else {
            j + 1
        };
        assert(c.inactive[ki].mod_id != c.inactive[kj].mod_id);
    }
    assert forall|i: int, j: int|
        0 <= i < after.active.len() && 0 <= j < after.active.len() && i != j implies (
    #[trigger] after.active[i]).mod_id != (#[trigger] after.active[j]).mod_id by {
        if i < last && j < last {
            assert(c.active[i].mod_id != c.active[j].mod_id);
        } else if i < last {
            assert(c.active[i].mod_id != id);
        } else {
            assert(c.active[j].mod_id != id);
        }
    }
}

/// Where no identifier occurs twice, making a package inactive keeps it so.
pub proof fn lemma_deactivate_keeps_distinct(c: CollectionsView, index: int)
    requires
        distinct(c),
        can_deactivate(c, index),
    ensures
        distinct(deactivated(c, index)),
{
    let after = deactivated(c, index);
    let id = c.active[index].mod_id;
    let last = after.inactive.len() - 1;
    assert forall|j: int| 0 <= j < after.active.len() implies (#[trigger] after.active[j])
        == c.active[if j < index {
        j
    } else {
        j + 1
    }] by {}
    assert forall|i: int, j: int|
        0 <= i < after.active.len() && 0 <= j < after.active.len() && i != j implies (
    #[trigger] after.active[i]).mod_id != (#[trigger] after.active[j]).mod_id by {
        let ki = if i < index {
            i
        } else {
            i + 1
        };
        let kj = if j < index {
            j
        } else {
            j + 1
        };
        assert(c.active[ki].mod_id != c.active[kj].mod_id);
    }
    assert forall|i: int, j: int|
        0 <= i < after.inactive.len() && 0 <= j < after.inactive.len() && i != j implies (
    #[trigger] after.inactive[i]).mod_id != (#[trigger] after.inactive[j]).mod_id by {
        if i < last && j < last {
            assert(c.inactive[i].mod_id != c.inactive[j].mod_id);
        } else if i < last {
            assert(c.inactive[i].mod_id != c.active[index].mod_id);
        } else {
            assert(c.inactive[j].mod_id != c.active[index].mod_id);
        }
    }
    assert forall|i: int, j: int|
        0 <= i < after.inactive.len() && 0 <= j < after.active.len() implies (
    #[trigger] after.inactive[i]).mod_id != (#[trigger] after.active[j]).mod_id by {
        let kj = if j < index {
            j
        } else {
            j + 1
        };
        if i < last {
            assert(c.inactive[i].mod_id != c.active[kj].mod_id);
        } else {
            assert(c.active[index].mod_id != c.active[kj].mod_id);
        }
    }
}

/// Where no identifier occurs twice, taking a package out keeps it so.
pub proof fn lemma_delete_keeps_distinct(c: CollectionsView, index: int, is_active: bool)
    requires
        distinct(c),
        can_delete(c, index, is_active),
    ensures
        distinct(deleted(c, index, is_active)),
{
    let after = deleted(c, index, is_active);
    if is_active {
        assert forall|j: int| 0 <= j < after.active.len() implies (#[trigger] after.active[j])
            == c.active[if j < index {
            j
        } else {
            j + 1
        }] by {}
    } else {
        assert forall|j: int| 0 <= j < after.inactive.len() implies (
        #[trigger] after.inactive[j]) == c.inactive[if j < index {
            j
        } else {
            j + 1
        }] by {}
    }
}

/// A package that is made active and then inactive again stands at the end
/// of the inactive packages with its identifier and with the folder name that
/// the activation gave it; the other packages are where they were.
pub proof fn lemma_activate_then_deactivate(c: CollectionsView, index: int, folder: Seq<char>)
    requires
        can_activate(c, index),
    ensures
        can_deactivate(activated(c, index, folder), c.active.len() as int),
        deactivated(activated(c, index, folder), c.active.len() as int).active == c.active,
        deactivated(activated(c, index, folder), c.active.len() as int).inactive
            == c.inactive.remove(index).push(with_folder(c.inactive[index], folder)),
        with_folder(c.inactive[index], folder).mod_id == c.inactive[index].mod_id,
        with_folder(c.inactive[index], folder).folder_name == folder,
{
    let mid = activated(c, index, folder);
    let at = c.active.len() as int;
    assert(mid.active.remove(at) =~= c.active);
}

} // verus!
