//! From a finished download to a package record: the addresses to ask, and
//! the record that is entered unless the package is known in that version.

use crate::collections::{disjoint, CollectionsView, PackageCollections};
use crate::details::{resolved_version, version_or_default, ModDetails, ModFileDetails};
use crate::package::{has_id, views, GameMod, GameModView};
use crate::registry::{awaits_metadata, saved, DownloadRegistry, DownloadState};
use crate::text::{decimal_digits, decimal_text, same_text};
use vstd::prelude::*;
use vstd::string::*;

verus! {

/// Address of the details of a package.
pub open spec fn mod_details_address(base: Seq<char>, mod_id: u64) -> Seq<char> {
    "https://"@ + base + "/stardewvalley/mods/"@ + decimal_digits(mod_id as nat) + ".json"@
}

/// Address of the details of one file of a package.
pub open spec fn file_details_address(base: Seq<char>, mod_id: u64, file_id: u64) -> Seq<char> {
    "https://"@ + base + "/stardewvalley/mods/"@ + decimal_digits(mod_id as nat) + "/files/"@
        + decimal_digits(file_id as nat) + ".json"@
}

/// Address of the list of the files of a package.
pub open spec fn files_address(base: Seq<char>, mod_id: u64) -> Seq<char> {
    "https://"@ + base + "/stardewvalley/mods/"@ + decimal_digits(mod_id as nat) + "/files.json"@
}

/// Address of the page that shows a package.
pub open spec fn page_link(mod_id: u64) -> Seq<char> {
    "https://www.nexusmods.com/stardewvalley/mods/"@ + decimal_digits(mod_id as nat)
}

/// Address of the details of a package.
pub fn mod_details_url(base: &str, mod_id: u64) -> (url: String)
    ensures
        url@ == mod_details_address(base@, mod_id),
{
    let mut url = String::from_str("https://");
    url.append(base);
    url.append("/stardewvalley/mods/");
    url.append(decimal_text(mod_id).as_str());
    url.append(".json");
    url
}

/// Address of the details of one file of a package.
pub fn file_details_url(base: &str, mod_id: u64, file_id: u64) -> (url: String)
    ensures
        url@ == file_details_address(base@, mod_id, file_id),
{
    let mut url = String::from_str("https://");
    url.append(base);
    url.append("/stardewvalley/mods/");
    url.append(decimal_text(mod_id).as_str());
    url.append("/files/");
    url.append(decimal_text(file_id).as_str());
    url.append(".json");
    url
}

/// Address of the list of the files of a package.
pub fn files_url(base: &str, mod_id: u64) -> (url: String)
    ensures
        url@ == files_address(base@, mod_id),
{
    let mut url = String::from_str("https://");
    url.append(base);
    url.append("/stardewvalley/mods/");
    url.append(decimal_text(mod_id).as_str());
    url.append("/files.json");
    url
}

/// Address of the page that shows a package.
pub fn mod_page_link(mod_id: u64) -> (url: String)
    ensures
        url@ == page_link(mod_id),
{
    let mut url = String::from_str("https://www.nexusmods.com/stardewvalley/mods/");
    url.append(decimal_text(mod_id).as_str());
    url
}

/// Whether one of `mods` has this identifier in this version.
pub open spec fn holds_version(mods: Seq<GameModView>, mod_id: u64, version: Seq<char>) -> bool {
    exists|i: int|
        0 <= i < mods.len() && (#[trigger] mods[i]).mod_id == mod_id && mods[i].version == version
}

/// Whether a package is known in this version, active or not.
pub open spec fn is_known(c: CollectionsView, mod_id: u64, version: Seq<char>) -> bool {
    holds_version(c.inactive, mod_id, version) || holds_version(c.active, mod_id, version)
}

/// The record of a package whose download is done.
pub open spec fn record_of(
    zip_name: Seq<char>,
    mod_id: u64,
    file_id: u64,
    name: Seq<char>,
    author: Seq<char>,
    version: Seq<char>,
) -> GameModView {
    GameModView {
        name,
        zip_name,
        folder_name: Seq::empty(),
        version,
        author,
        link: page_link(mod_id),
        mod_id,
        file_id,
    }
}

/// The collections once `record` has been resolved: it is entered among the
/// inactive packages unless the package is known in that version.
pub open spec fn resolved(c: CollectionsView, record: GameModView) -> CollectionsView {
    if is_known(c, record.mod_id, record.version) {
        c
    } else {
        CollectionsView { inactive: c.inactive.push(record), active: c.active }
    }
}

/// Whether one of `mods` has this identifier in this version.
pub fn contains_version(mods: &Vec<GameMod>, mod_id: u64, version: &str) -> (r: bool)
    ensures
        r == holds_version(views(mods@), mod_id, version@),
{
    let mut i: usize = 0;
    while i < mods.len()
        invariant
            i <= mods@.len(),
            forall|j: int|
                0 <= j < i ==> !((#[trigger] views(mods@)[j]).mod_id == mod_id && views(
                    mods@,
                )[j].version == version@),
        decreases mods@.len() - i,
    {
        if mods[i].mod_id == mod_id && same_text(mods[i].version.as_str(), version) {
            assert(views(mods@)[i as int].mod_id == mod_id && views(mods@)[i as int].version
                == version@);
            return true;
        }
        i = i + 1;
    }
    false
}

/// Enters the record of a finished download among the inactive packages,
/// unless the package is known in the version that the file details give,
/// and says whether it did.
pub fn resolve_metadata(
    collections: &mut PackageCollections,
    zip_name: &str,
    mod_id: u64,
    file_id: u64,
    details: &ModDetails,
    file: &ModFileDetails,
) -> (added: bool)
    ensures
        added == !is_known(old(collections)@, mod_id, version_or_default(file@.version)),
        final(collections)@ == resolved(
            old(collections)@,
            record_of(
                zip_name@,
                mod_id,
                file_id,
                details.name@,
                details.author@,
                version_or_default(file@.version),
            ),
        ),
{
    let version = resolved_version(file);
    if contains_version(&collections.inactive, mod_id, version.as_str()) || contains_version(
        &collections.active,
        mod_id,
        version.as_str(),
    ) {
        return false;
    }
    let ghost before = collections@;
    let record = GameMod {
        name: details.name.clone(),
        zip_name: String::from_str(zip_name),
        folder_name: String::new(),
        version,
        author: details.author.clone(),
        link: mod_page_link(mod_id),
        mod_id,
        file_id,
    };
    collections.inactive.push(record);
    assert(collections@.inactive =~= before.inactive.push(record@));
    true
}

/// Resolving a package that is known in that version changes nothing.
pub proof fn lemma_resolve_known(c: CollectionsView, record: GameModView)
    requires
        is_known(c, record.mod_id, record.version),
    ensures
        resolved(c, record) == c,
{
}

/// Resolving the same record a second time changes nothing: at most one
/// record is made of it.
pub proof fn lemma_resolve_once(c: CollectionsView, record: GameModView)
    ensures
        resolved(resolved(c, record), record) == resolved(c, record),
        is_known(resolved(c, record), record.mod_id, record.version),
{
    if !is_known(c, record.mod_id, record.version) {
        let after = resolved(c, record);
        let last = after.inactive.len() - 1;
        assert(after.inactive[last] == record);
        assert(holds_version(after.inactive, record.mod_id, record.version));
    }
}

/// Resolving a record leaves no identifier in both collections exactly where
/// nothing is entered or no active package has the record's identifier.
pub proof fn lemma_resolve_disjoint(c: CollectionsView, record: GameModView)
    requires
        disjoint(c),
    ensures
        disjoint(resolved(c, record)) <==> (is_known(c, record.mod_id, record.version) || !has_id(
            c.active,
            record.mod_id,
        )),
{
    let after = resolved(c, record);
    if !is_known(c, record.mod_id, record.version) {
        let last = after.inactive.len() - 1;
        assert(after.inactive[last] == record);
        if has_id(c.active, record.mod_id) {
            let j = choose|j: int| 0 <= j < c.active.len() && c.active[j].mod_id == record.mod_id;
            assert(after.inactive[last].mod_id == after.active[j].mod_id);
        } else {
            assert forall|i: int, j: int|
                0 <= i < after.inactive.len() && 0 <= j < after.active.len() implies (
            #[trigger] after.inactive[i]).mod_id != (#[trigger] after.active[j]).mod_id by {
                if i < last {
                    assert(after.inactive[i] == c.inactive[i]);
                }
            }
        }
    }
}

/// What became of the attempt to make a package record of a download.
#[derive(Clone, Copy, Debug, PartialEq, Eq, Structural)]
pub enum Resolution {
    /// The download is unknown, still running, or has its record already.
    NotPending,
    /// The package is known in that version: no record was made, and the
    /// download still waits for one.
    AlreadyKnown,
    /// The record was entered and the download noted as having it.
    Added,
}

/// Whether the download of `zip_name` is done and waits for its record.
pub open spec fn is_pending(registry: Map<Seq<char>, DownloadState>, zip_name: Seq<char>) -> bool {
    registry.contains_key(zip_name) && awaits_metadata(registry[zip_name])
}

/// Makes the package record of the download of `zip_name` from what the
/// remote service told of it. Only a download that is done and waits for its
/// record is touched; a package known in that version gets no second record.
pub fn complete_download(
    collections: &mut PackageCollections,
    registry: &mut DownloadRegistry,
    zip_name: &str,
    details: &ModDetails,
    file: &ModFileDetails,
) -> (outcome: Resolution)
    requires
        old(registry).wf(),
    ensures
        final(registry).wf(),
        final(registry).names() == old(registry).names(),
        match outcome {
            Resolution::NotPending => {
                &&& !is_pending(old(registry)@, zip_name@)
                &&& final(collections)@ == old(collections)@
                &&& final(registry)@ == old(registry)@
            },
            Resolution::AlreadyKnown => {
                &&& is_pending(old(registry)@, zip_name@)
                &&& is_known(
                    old(collections)@,
                    old(registry)@[zip_name@].mod_id,
                    version_or_default(file@.version),
                )
                &&& final(collections)@ == old(collections)@
                &&& final(registry)@ == old(registry)@
            },
            Resolution::Added => {
                &&& is_pending(old(registry)@, zip_name@)
                &&& !is_known(
                    old(collections)@,
                    old(registry)@[zip_name@].mod_id,
                    version_or_default(file@.version),
                )
                &&& final(collections)@.active == old(collections)@.active
                &&& final(collections)@.inactive == old(collections)@.inactive.push(
                    record_of(
                        zip_name@,
                        old(registry)@[zip_name@].mod_id,
                        old(registry)@[zip_name@].file_id,
                        details.name@,
                        details.author@,
                        version_or_default(file@.version),
                    ),
                )
                &&& final(registry)@ == old(registry)@.insert(
                    zip_name@,
                    saved(old(registry)@[zip_name@]),
                )
            },
        },
{
    let state = match registry.get(zip_name) {
        Some(state) => state,
        None => {
            return Resolution::NotPending;
        },
    };
    if state.bytes_downloaded != state.total_bytes || state.metadata_saved {
        return Resolution::NotPending;
    }
    if resolve_metadata(collections, zip_name, state.mod_id, state.file_id, details, file) {
        registry.mark_saved(zip_name);
        Resolution::Added
    } else {
        Resolution::AlreadyKnown
    }
}

} // verus!
