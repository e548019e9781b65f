//! Package records as earlier versions kept them, and how they are brought
//! to the present form.

use crate::details::{FileDetailsView, ModFileDetails};
use crate::package::{GameMod, GameModView};
use crate::text::same_text;
use vstd::prelude::*;
use vstd::string::*;

verus! {

/// A package record as earlier versions kept it: without a file identifier.
#[derive(Clone, Debug)]
pub struct DepGameMod {
    pub name: String,
    pub zip_name: String,
    pub folder_name: String,
    pub version: String,
    pub author: String,
    pub link: String,
    pub id: u64,
}

/// An earlier record as plain values.
pub ghost struct DepGameModView {
    pub name: Seq<char>,
    pub zip_name: Seq<char>,
    pub folder_name: Seq<char>,
    pub version: Seq<char>,
    pub author: Seq<char>,
    pub link: Seq<char>,
    pub id: u64,
}

impl View for DepGameMod {
    type V = DepGameModView;

    open spec fn view(&self) -> DepGameModView {
        DepGameModView {
            name: self.name@,
            zip_name: self.zip_name@,
            folder_name: self.folder_name@,
            version: self.version@,
            author: self.author@,
            link: self.link@,
            id: self.id,
        }
    }
}

/// Whether file details are those of the archive `zip_name` in `version`.
pub open spec fn file_matches(file: FileDetailsView, zip_name: Seq<char>, version: Seq<char>) -> bool {
    file.file_name == Some(zip_name) && file.version == Some(version)
}

/// The file identifier that the first matching file details give; 0 where
/// none match or the first match gives none.
pub open spec fn matching_file_id(
    files: Seq<FileDetailsView>,
    zip_name: Seq<char>,
    version: Seq<char>,
) -> u64
    decreases files.len(),
{
    if files.len() == 0 {
        0
    } else if file_matches(files[0], zip_name, version) {
        match files[0].file_id {
            Some(id) => id,
            None => 0,
        }
    } else {
        matching_file_id(files.drop_first(), zip_name, version)
    }
}

/// An earlier record in the present form, with the file identifier given.
pub open spec fn migrated(old: DepGameModView, file_id: u64) -> GameModView {
    GameModView {
        name: old.name,
        zip_name: old.zip_name,
        folder_name: old.folder_name,
        version: old.version,
        author: old.author,
        link: old.link,
        mod_id: old.id,
        file_id,
    }
}

/// File details as plain values, one for one.
pub open spec fn file_views(files: Seq<ModFileDetails>) -> Seq<FileDetailsView> {
    files.map_values(|f: ModFileDetails| f@)
}

fn text_is(text: &Option<String>, wanted: &str) -> (r: bool)
    ensures
        r == (crate::details::text_view(*text) == Some(wanted@)),
{
    match text {
        Some(t) => same_text(t.as_str(), wanted),
        None => false,
    }
}

/// The file identifier of the archive `zip_name` in `version` among the
/// files that the remote service lists for its package.
pub fn find_file_id(files: &Vec<ModFileDetails>, zip_name: &str, version: &str) -> (id: u64)
    ensures
        id == matching_file_id(file_views(files@), zip_name@, version@),
{
    let n: usize = files.len();
    let ghost all = file_views(files@);
    let mut i: usize = 0;
    assert(all.subrange(0, n as int) =~= all);
    while i < n
        invariant
            i <= n,
            n == files@.len(),
            all == file_views(files@),
            matching_file_id(all, zip_name@, version@) == matching_file_id(
                all.subrange(i as int, n as int),
                zip_name@,
                version@,
            ),
        decreases n - i,
    {
        let file = &files[i];
        let ghost rest = all.subrange(i as int, n as int);
        proof {
            assert(rest[0] == file@);
            assert(rest.drop_first() =~= all.subrange(i + 1, n as int));
        }
        if text_is(&file.file_name, zip_name) && text_is(&file.version, version) {
            return match file.file_id {
                Some(id) => id,
                None => 0,
            };
        }
        i = i + 1;
    }
    0
}

/// Brings an earlier record to the present form. Its file identifier is
/// looked up among the files that the remote service lists for the package;
/// with an empty list it is 0.
pub fn migrate_record(old: DepGameMod, files: &Vec<ModFileDetails>) -> (r: GameMod)
    ensures
        r@ == migrated(
            old@,
            matching_file_id(file_views(files@), old@.zip_name, old@.version),
        ),
{
    let file_id = find_file_id(files, old.zip_name.as_str(), old.version.as_str());
    GameMod {
        name: old.name,
        zip_name: old.zip_name,
        folder_name: old.folder_name,
        version: old.version,
        author: old.author,
        link: old.link,
        mod_id: old.id,
        file_id,
    }
}

} // verus!
