//! Packages that the user hands over as archive files, without a download:
//! which files are taken, and the identifier that such a package gets.

use crate::collections::{disjoint, distinct, CollectionsView, PackageCollections};
use crate::package::{blank_record, contains_id, has_id, GameMod, GameModView};
use crate::text::{find_last, last_index, lemma_last_index_bounds, same_text};
use vstd::prelude::*;
use vstd::string::*;

verus! {

/// Where the identifiers of packages without a download begin.
pub const HIGH: u64 = 18446744073709541615;

/// What follows the last dot of a file name; nothing where the name has no
/// dot, only a leading one, or is `..`.
pub open spec fn extension_of(file_name: Seq<char>) -> Option<Seq<char>> {
    if last_index(file_name, '.') <= 0 || file_name == ".."@ {
        None
    } else {
        Some(file_name.subrange(last_index(file_name, '.') + 1, file_name.len() as int))
    }
}

/// Whether a file that was handed over is taken as a package archive: its
/// name has no extension, or the extension `zip`.
pub open spec fn is_accepted(file_name: Seq<char>) -> bool {
    match extension_of(file_name) {
        None => true,
        Some(ext) => ext == "zip"@,
    }
}

/// Whether a file of this name is taken as a package archive.
pub fn accepts_dropped(file_name: &str) -> (r: bool)
    ensures
        r == is_accepted(file_name@),
{
    proof {
        lemma_last_index_bounds(file_name@, '.');
    }
    if same_text(file_name, "..") {
        return true;
    }
    match find_last(file_name, '.') {
        None => true,
        Some(at) => {
            if at == 0 {
                true
            } else {
                let n: usize = file_name.unicode_len();
                same_text(file_name.substring_char(at + 1, n), "zip")
            }
        },
    }
}

/// Whether a package, active or not, has the identifier `id`.
pub open spec fn is_taken(c: CollectionsView, id: u64) -> bool {
    has_id(c.inactive, id) || has_id(c.active, id)
}

/// Whether `id` is the identifier for the next package without a download:
/// the least from `HIGH` on that no package has.
pub open spec fn is_next_local(c: CollectionsView, id: u64) -> bool {
    &&& id >= HIGH
    &&& !is_taken(c, id)
    &&& forall|k: u64| HIGH <= k < id ==> #[trigger] is_taken(c, k)
}

/// Whether every identifier from `HIGH` on is taken.
pub open spec fn none_left(c: CollectionsView) -> bool {
    forall|k: u64| k >= HIGH ==> #[trigger] is_taken(c, k)
}

/// The identifier for the next package without a download: the least from
/// `HIGH` on that no package has, active or not. `None` where all are taken.
pub fn next_local_id(collections: &PackageCollections) -> (r: Option<u64>)
    ensures
        match r {
            Some(id) => {
                &&& is_next_local(collections@, id)
                &&& id >= HIGH
                &&& !has_id(collections@.inactive, id)
                &&& !has_id(collections@.active, id)
            },
            None => none_left(collections@),
        },
{
    let mut id: u64 = HIGH;
    loop
        invariant
            id >= HIGH,
            forall|k: u64| HIGH <= k < id ==> #[trigger] is_taken(collections@, k),
        decreases u64::MAX - id,
    {
        if !contains_id(&collections.inactive, id) && !contains_id(&collections.active, id) {
            return Some(id);
        }
        if id == u64::MAX {
            return None;
        }
        id = id + 1;
    }
}

/// The record of a package handed over as the archive `file_name`.
pub open spec fn local_record(file_name: Seq<char>, id: u64) -> GameModView {
    GameModView { name: file_name, zip_name: file_name, mod_id: id, file_id: id, ..blank_record() }
}

/// The collections once a package handed over as the archive `file_name` has
/// been entered under `id`, at the end of the inactive ones.
pub open spec fn with_local(c: CollectionsView, file_name: Seq<char>, id: u64) -> CollectionsView {
    CollectionsView { inactive: c.inactive.push(local_record(file_name, id)), active: c.active }
}

/// A package entered under an identifier that no package has leaves no
/// identifier in both collections, and none twice, where there was none.
pub proof fn lemma_local_keeps_apart(c: CollectionsView, file_name: Seq<char>, id: u64)
    requires
        !is_taken(c, id),
    ensures
        disjoint(c) ==> disjoint(with_local(c, file_name, id)),
        distinct(c) ==> distinct(with_local(c, file_name, id)),
{
    let after = with_local(c, file_name, id);
    let last = c.inactive.len() as int;
    assert forall|i: int| 0 <= i < after.inactive.len() implies (#[trigger] after.inactive[i]).mod_id
        == (if i < last {
        c.inactive[i].mod_id
    } else {
        id
    }) by {}
    if disjoint(c) {
        assert forall|i: int, j: int|
            0 <= i < after.inactive.len() && 0 <= j < after.active.len() implies (
        #[trigger] after.inactive[i]).mod_id != (#[trigger] after.active[j]).mod_id by {
            if i < last {
                assert(c.inactive[i].mod_id != c.active[j].mod_id);
            } else {
                assert(c.active[j].mod_id != id);
            }
        }
    }
    if distinct(c) {
        assert forall|i: int, j: int|
            0 <= i < after.inactive.len() && 0 <= j < after.inactive.len() && i != j implies (
        #[trigger] after.inactive[i]).mod_id != (#[trigger] after.inactive[j]).mod_id by {
            if i < last && j < last {
                assert(c.inactive[i].mod_id != c.inactive[j].mod_id);
            } else if i < last {
                assert(c.inactive[i].mod_id != id);
            } else {
                assert(c.inactive[j].mod_id != id);
            }
        }
    }
}

/// Enters a package that was handed over as the archive `file_name` at the
/// end of the inactive ones, under the least identifier from `HIGH` on that
/// no package has, and gives that identifier. Nothing changes where every
/// such identifier is taken.
pub fn add_local(collections: &mut PackageCollections, file_name: &str) -> (r: Option<u64>)
    ensures
        match r {
            Some(id) => {
                &&& is_next_local(old(collections)@, id)
                &&& id >= HIGH
                &&& !has_id(old(collections)@.inactive, id)
                &&& !has_id(old(collections)@.active, id)
                &&& final(collections)@.active == old(collections)@.active
                &&& final(collections)@.inactive == old(collections)@.inactive.push(
                    local_record(file_name@, id),
                )
            },
            None => none_left(old(collections)@) && final(collections)@ == old(collections)@,
        },
        disjoint(old(collections)@) ==> disjoint(final(collections)@),
        distinct(old(collections)@) ==> distinct(final(collections)@),
{
    let id: u64 = match next_local_id(collections) {
        Some(id) => id,
        None => {
            return None;
        },
    };
    let ghost before = collections@;
    let mut record = GameMod::default();
    record.name = String::from_str(file_name);
    record.zip_name = String::from_str(file_name);
    record.mod_id = id;
    record.file_id = id;
    collections.inactive.push(record);
    proof {
        assert(collections@.inactive =~= before.inactive.push(local_record(file_name@, id)));
        assert(collections@ == with_local(before, file_name@, id));
        lemma_local_keeps_apart(before, file_name@, id);
    }
    Some(id)
}

} // verus!
