//! Laying an archive out: the folder that a package is named by, and the
//! directories and files to write for its entries.

use crate::archive::{
    archive_len, archive_source, ends_in_slash, entry_count, entry_data, entry_data_of,
    entry_enclosed_name, entry_name, entry_name_of, has_trailing_slash, is_archive, is_dir_name,
    is_enclosed, names_directory, open_archive, ArchiveError,
};
use crate::text::{find_last, last_index, lemma_last_index_bounds};
use vstd::prelude::*;
use vstd::string::*;

verus! {

/// `name` with every backslash turned into a slash.
pub open spec fn normalized(name: Seq<char>) -> Seq<char> {
    name.map_values(
        |c: char|
            if c == '\\' {
                '/'
            } else {
                c
            },
    )
}

/// What stands before the last slash of `name`: the directory that holds it.
pub open spec fn parent_of(name: Seq<char>) -> Seq<char> {
    name.subrange(0, last_index(name, '/'))
}

/// Folder that a package is named by, from the name of its archive's first
/// entry: that name itself where it is a directory, else the directory that
/// holds it.
pub open spec fn folder_of(first: Seq<char>) -> Seq<char> {
    if names_directory(first) {
        normalized(first)
    } else {
        parent_of(first)
    }
}

/// Turns every backslash of `name` into a slash.
pub fn normalize_separators(name: &str) -> (r: String)
    ensures
        r@ == normalized(name@),
{
    let n: usize = name.unicode_len();
    let mut out = String::new();
    let mut start: usize = 0;
    proof {
        reveal_strlit("/");
        assert(normalized(name@.subrange(0, 0)) =~= Seq::<char>::empty());
    }
    while start < n
        invariant
            start <= n,
            n == name@.len(),
            "/"@ == seq!['/'],
            out@ == normalized(name@.subrange(0, start as int)),
        decreases n - start,
    {
        let at: usize = crate::text::find_from(name, '\\', start);
        let ghost tail = name@.subrange(start as int, n as int);
        proof {
            crate::text::lemma_first_index_bounds(tail, '\\');
        }
        out.append(name.substring_char(start, at));
        proof {
            assert forall|j: int| start <= j < at implies name@[j] != '\\' by {
                assert(tail[j - start] == name@[j]);
            }
            assert(out@ =~= normalized(name@.subrange(0, at as int)));
        }
        if at < n {
            out.append("/");
            proof {
                assert(tail[at - start] == name@[at as int]);
                assert(out@ =~= normalized(name@.subrange(0, at + 1)));
            }
            start = at + 1;
        } else {
            start = n;
        }
    }
    assert(name@.subrange(0, n as int) =~= name@);
    out
}

/// The directory that holds `name`: what stands before its last slash.
pub fn parent_name(name: &str) -> (r: String)
    ensures
        r@ == parent_of(name@),
{
    proof {
        lemma_last_index_bounds(name@, '/');
    }
    match find_last(name, '/') {
        Some(at) => String::from_str(name.substring_char(0, at)),
        None => {
            assert(name@.subrange(0, 0) =~= Seq::<char>::empty());
            String::new()
        },
    }
}

/// Folder that a package is named by, from the name of its archive's first
/// entry.
pub fn folder_name_of(first: &str) -> (r: String)
    ensures
        r@ == folder_of(first@),
{
    if is_dir_name(first) {
        normalize_separators(first)
    } else {
        parent_name(first)
    }
}

/// What is known of one entry of an archive.
#[derive(Clone, Debug)]
pub struct ArchiveEntry {
    pub name: String,
    /// Whether the name is a path that stays under the directory it is
    /// joined to.
    pub enclosed: bool,
    /// The bytes that the entry unpacks to; empty where they are not needed.
    pub data: Vec<u8>,
}

/// An entry as plain values.
pub ghost struct EntryView {
    pub name: Seq<char>,
    pub enclosed: bool,
    pub data: Seq<u8>,
}

impl View for ArchiveEntry {
    type V = EntryView;

    open spec fn view(&self) -> EntryView {
        EntryView { name: self.name@, enclosed: self.enclosed, data: self.data@ }
    }
}

/// One thing to write when an archive is laid out. Paths are relative to the
/// directory that the archive is laid out under.
#[derive(Clone, Debug)]
pub enum ExtractStep {
    /// Make this directory, with those above it.
    CreateDir { path: String },
    /// Make the directory that holds this file, then write the file.
    WriteFile { path: String, data: Vec<u8> },
}

/// A step as plain values.
pub ghost enum StepView {
    CreateDir { path: Seq<char> },
    WriteFile { path: Seq<char>, data: Seq<u8> },
}

impl View for ExtractStep {
    type V = StepView;

    open spec fn view(&self) -> StepView {
        match self {
            ExtractStep::CreateDir { path } => StepView::CreateDir { path: path@ },
            ExtractStep::WriteFile { path, data } => StepView::WriteFile {
                path: path@,
                data: data@,
            },
        }
    }
}

/// How an archive is laid out: the folder that names the package, and what to
/// write, in the order of the archive's entries.
#[derive(Clone, Debug)]
pub struct Extraction {
    pub folder_name: String,
    pub steps: Vec<ExtractStep>,
}

/// An extraction as plain values.
pub ghost struct ExtractionView {
    pub folder_name: Seq<char>,
    pub steps: Seq<StepView>,
}

impl View for Extraction {
    type V = ExtractionView;

    open spec fn view(&self) -> ExtractionView {
        ExtractionView {
            folder_name: self.folder_name@,
            steps: self.steps@.map_values(|s: ExtractStep| s@),
        }
    }
}

/// Whether the bytes of an entry are written: its name is enclosed and does
/// not end in a slash.
pub open spec fn is_written(name: Seq<char>, enclosed: bool) -> bool {
    enclosed && !ends_in_slash(name)
}

/// What is written for one entry: nothing where its name is not enclosed, a
/// directory where the name ends in a slash, else a file with its bytes.
pub open spec fn step_of(entry: EntryView) -> Option<StepView> {
    if !entry.enclosed {
        None
    } else if ends_in_slash(entry.name) {
        Some(StepView::CreateDir { path: entry.name })
    } else {
        Some(StepView::WriteFile { path: entry.name, data: entry.data })
    }
}

/// What is written for a run of entries, in their order.
pub open spec fn steps_of(entries: Seq<EntryView>) -> Seq<StepView> {
    entries.filter_map(|entry: EntryView| step_of(entry))
}

/// How the entries of an archive are laid out, or why they cannot be.
pub open spec fn planned(entries: Seq<EntryView>) -> Result<ExtractionView, ArchiveError> {
    if entries.len() == 0 {
        Err(ArchiveError::Empty)
    } else if !entries[0].enclosed {
        Err(ArchiveError::UnsafeRoot)
    } else {
        Ok(
            ExtractionView {
                folder_name: folder_of(entries[0].name),
                steps: steps_of(entries),
            },
        )
    }
}

/// The entries of `entries` as plain values.
pub open spec fn entry_views(entries: Seq<ArchiveEntry>) -> Seq<EntryView> {
    entries.map_values(|e: ArchiveEntry| e@)
}

/// Plans how the entries of an archive are laid out.
pub fn plan_extraction(entries: &Vec<ArchiveEntry>) -> (r: Result<Extraction, ArchiveError>)
    ensures
        match r {
            Ok(plan) => planned(entry_views(entries@)) == Ok::<ExtractionView, ArchiveError>(
                plan@,
            ),
            Err(e) => planned(entry_views(entries@)) == Err::<ExtractionView, ArchiveError>(e),
        },
{
    let n: usize = entries.len();
    if n == 0 {
        return Err(ArchiveError::Empty);
    }
    if !entries[0].enclosed {
        return Err(ArchiveError::UnsafeRoot);
    }
    let folder_name = folder_name_of(entries[0].name.as_str());
    let ghost all = entry_views(entries@);
    let ghost pick = |entry: EntryView| step_of(entry);
    let mut steps: Vec<ExtractStep> = Vec::new();
    let mut i: usize = 0;
    assert(all.take(0).filter_map(pick) =~= Seq::<StepView>::empty());
    while i < n
        invariant
            i <= n,
            n == entries@.len(),
            all == entry_views(entries@),
            pick == (|entry: EntryView| step_of(entry)),
            steps@.map_values(|s: ExtractStep| s@) == all.take(i as int).filter_map(pick),
        decreases n - i,
    {
        let entry = &entries[i];
        proof {
            all.lemma_filter_map_take_succ(pick, i as int);
            assert(all[i as int] == entry@);
        }
        if entry.enclosed {
            let ghost before = steps@.map_values(|s: ExtractStep| s@);
            if has_trailing_slash(entry.name.as_str()) {
                let step = ExtractStep::CreateDir { path: entry.name.clone() };
                steps.push(step);
                assert(steps@.map_values(|s: ExtractStep| s@) =~= before.push(step@));
            } else {
                let data = entry.data.clone();
                assert(data@ =~= entry.data@);
                let step = ExtractStep::WriteFile { path: entry.name.clone(), data };
                steps.push(step);
                assert(steps@.map_values(|s: ExtractStep| s@) =~= before.push(step@));
            }
        }
        i = i + 1;
    }
    assert(all.take(n as int) =~= all);
    Ok(Extraction { folder_name, steps })
}

/// Whether the entry at `index` of the archive in `bytes` can be read as far
/// as laying it out needs: its name, and its bytes where they are written.
pub open spec fn entry_readable(bytes: Seq<u8>, index: int) -> bool {
    match entry_name_of(bytes, index) {
        None => false,
        Some(name) => is_written(name, is_enclosed(name)) ==> entry_data_of(bytes, index) is Some,
    }
}

/// Whether every entry before `upto` can be read.
pub open spec fn entries_readable(bytes: Seq<u8>, upto: int) -> bool {
    forall|i: int| 0 <= i < upto ==> #[trigger] entry_readable(bytes, i)
}

/// The entry at `index` of the archive in `bytes`, where it can be read.
pub open spec fn entry_at(bytes: Seq<u8>, index: int) -> EntryView {
    let name = entry_name_of(bytes, index).unwrap();
    let enclosed = is_enclosed(name);
    EntryView {
        name,
        enclosed,
        data: if is_written(name, enclosed) {
            entry_data_of(bytes, index).unwrap()
        } else {
            Seq::empty()
        },
    }
}

/// The entries of the archive in `bytes`, where all can be read.
pub open spec fn entries_of(bytes: Seq<u8>) -> Seq<EntryView> {
    Seq::new(entry_count(bytes), |i: int| entry_at(bytes, i))
}

/// Reads the entries of an archive as far as laying it out needs them.
pub fn read_entries(archive: Vec<u8>) -> (r: Result<Vec<ArchiveEntry>, ArchiveError>)
    ensures
        match r {
            Ok(entries) => {
                &&& is_archive(archive@)
                &&& entries_readable(archive@, entry_count(archive@) as int)
                &&& entry_views(entries@) == entries_of(archive@)
            },
            Err(ArchiveError::NotAnArchive) => !is_archive(archive@),
            Err(ArchiveError::UnreadableEntry(at)) => {
                &&& is_archive(archive@)
                &&& at < entry_count(archive@)
                &&& entries_readable(archive@, at as int)
                &&& !entry_readable(archive@, at as int)
            },
            Err(_) => false,
        },
{
    let ghost bytes = archive@;
    let mut opened = match open_archive(archive) {
        Some(opened) => opened,
        None => {
            return Err(ArchiveError::NotAnArchive);
        },
    };
    let count: usize = archive_len(&opened);
    let mut entries: Vec<ArchiveEntry> = Vec::new();
    let mut i: usize = 0;
    while i < count
        invariant
            i <= count,
            bytes == archive@,
            count == entry_count(bytes),
            is_archive(bytes),
            archive_source(opened) == bytes,
            entries_readable(bytes, i as int),
            entries@.len() == i,
            forall|j: int| 0 <= j < i ==> (#[trigger] entries@[j])@ == entry_at(bytes, j),
        decreases count - i,
    {
        let name = match entry_name(&mut opened, i) {
            Some(name) => name,
            None => {
                return Err(ArchiveError::UnreadableEntry(i));
            },
        };
        let enclosed = entry_enclosed_name(&mut opened, i).is_some();
        let data = if enclosed && !has_trailing_slash(name.as_str()) {
            match entry_data(&mut opened, i) {
                Some(data) => data,
                None => {
                    return Err(ArchiveError::UnreadableEntry(i));
                },
            }
        } else {
            Vec::new()
        };
        let entry = ArchiveEntry { name, enclosed, data };
        assert(entry@ == entry_at(bytes, i as int));
        assert(entry_readable(bytes, i as int));
        entries.push(entry);
        i = i + 1;
    }
    assert(entry_views(entries@) =~= entries_of(bytes));
    Ok(entries)
}

/// Plans how an archive is laid out under a directory: the folder that names
/// the package and, for each entry whose name stays under that directory, the
/// directory or the file to write.
pub fn unzip(archive: Vec<u8>) -> (r: Result<Extraction, ArchiveError>)
    ensures
        match r {
            Ok(plan) => {
                &&& is_archive(archive@)
                &&& entries_readable(archive@, entry_count(archive@) as int)
                &&& planned(entries_of(archive@)) == Ok::<ExtractionView, ArchiveError>(plan@)
            },
            Err(ArchiveError::NotAnArchive) => !is_archive(archive@),
            Err(ArchiveError::UnreadableEntry(at)) => {
                &&& is_archive(archive@)
                &&& at < entry_count(archive@)
                &&& entries_readable(archive@, at as int)
                &&& !entry_readable(archive@, at as int)
            },
            Err(e) => {
                &&& is_archive(archive@)
                &&& entries_readable(archive@, entry_count(archive@) as int)
                &&& planned(entries_of(archive@)) == Err::<ExtractionView, ArchiveError>(e)
            },
        },
{
    match read_entries(archive) {
        Err(e) => Err(e),
        Ok(entries) => plan_extraction(&entries),
    }
}

} // verus!
