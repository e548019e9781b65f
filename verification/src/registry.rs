//! The registry of downloads: for each archive file name, how far its
//! download has come and whether its package record has been made.

use crate::text::same_text;
use vstd::prelude::*;
use vstd::string::*;

verus! {

/// One report of a download's progress.
#[derive(Clone, Debug)]
pub struct DownloadProgress {
    pub file_name: String,
    pub bytes_downloaded: usize,
    pub total_bytes: usize,
    pub mod_id: u64,
    pub file_id: u64,
}

/// What the registry keeps of one download.
#[derive(Clone, Copy, Debug, PartialEq, Eq, Structural)]
pub struct DownloadState {
    pub bytes_downloaded: usize,
    pub total_bytes: usize,
    pub mod_id: u64,
    pub file_id: u64,
    /// Whether the package record of this download has been made.
    pub metadata_saved: bool,
}

/// A download's state as a report gives it: its package record is still to
/// be made.
pub open spec fn reported(
    bytes_downloaded: usize,
    total_bytes: usize,
    mod_id: u64,
    file_id: u64,
) -> DownloadState {
    DownloadState { bytes_downloaded, total_bytes, mod_id, file_id, metadata_saved: false }
}

/// The registry after a report for `name`: a first report is entered, a later
/// one replaces the entry where it has come further, and is dropped otherwise.
pub open spec fn recorded(
    m: Map<Seq<char>, DownloadState>,
    name: Seq<char>,
    report: DownloadState,
) -> Map<Seq<char>, DownloadState> {
    if !m.contains_key(name) || m[name].bytes_downloaded < report.bytes_downloaded {
        m.insert(name, report)
    } else {
        m
    }
}

/// Whether a download is done.
pub open spec fn is_complete(state: DownloadState) -> bool {
    state.bytes_downloaded == state.total_bytes
}

/// Whether a download is done and its package record still to be made.
pub open spec fn awaits_metadata(state: DownloadState) -> bool {
    is_complete(state) && !state.metadata_saved
}

/// `state` with its package record made.
pub open spec fn saved(state: DownloadState) -> DownloadState {
    DownloadState { metadata_saved: true, ..state }
}

#[derive(Clone, Debug)]
struct Entry {
    name: String,
    state: DownloadState,
}

/// The downloads that are known, by archive file name.
#[derive(Clone, Debug)]
pub struct DownloadRegistry {
    entries: Vec<Entry>,
}

spec fn names_unique(entries: Seq<Entry>) -> bool {
    forall|i: int, j: int|
        0 <= i < entries.len() && 0 <= j < entries.len() && i != j ==> (#[trigger] entries[i]).name@
            != (#[trigger] entries[j]).name@
}

spec fn holds(entries: Seq<Entry>, name: Seq<char>) -> bool {
    exists|i: int| 0 <= i < entries.len() && (#[trigger] entries[i]).name@ == name
}

spec fn place(entries: Seq<Entry>, name: Seq<char>) -> int {
    choose|i: int| 0 <= i < entries.len() && (#[trigger] entries[i]).name@ == name
}

spec fn model(entries: Seq<Entry>) -> Map<Seq<char>, DownloadState> {
    Map::new(|name: Seq<char>| holds(entries, name), |name: Seq<char>| entries[place(entries, name)].state)
}

spec fn names_of(entries: Seq<Entry>) -> Seq<Seq<char>> {
    entries.map_values(|e: Entry| e.name@)
}

proof fn lemma_model_at(entries: Seq<Entry>, i: int)
    requires
        names_unique(entries),
        0 <= i < entries.len(),
    ensures
        model(entries).contains_key(entries[i].name@),
        model(entries)[entries[i].name@] == entries[i].state,
{
    let name = entries[i].name@;
    assert(holds(entries, name));
    let p = place(entries, name);
    assert(entries[p].name@ == name);
}

impl View for DownloadRegistry {
    type V = Map<Seq<char>, DownloadState>;

    closed spec fn view(&self) -> Map<Seq<char>, DownloadState> {
        model(self.entries@)
    }
}

impl DownloadRegistry {
    /// No file name is entered twice.
    pub closed spec fn wf(&self) -> bool {
        names_unique(self.entries@)
    }

    /// The file names of the downloads that are known, in the order in which
    /// they were entered.
    pub closed spec fn names(&self) -> Seq<Seq<char>> {
        names_of(self.entries@)
    }

    /// A registry without a download.
    pub fn new() -> (r: Self)
        ensures
            r.wf(),
            r@ == Map::<Seq<char>, DownloadState>::empty(),
            r.names() == Seq::<Seq<char>>::empty(),
    {
        let r = DownloadRegistry { entries: Vec::new() };
        assert(r@ =~= Map::<Seq<char>, DownloadState>::empty());
        assert(r.names() =~= Seq::<Seq<char>>::empty());
        r
    }

    fn find(&self, name: &str) -> (r: Option<usize>)
        ensures
            match r {
                Some(i) => i < self.entries@.len() && self.entries@[i as int].name@ == name@,
                None => !holds(self.entries@, name@),
            },
    {
        let mut i: usize = 0;
        while i < self.entries.len()
            invariant
                i <= self.entries@.len(),
                forall|j: int| 0 <= j < i ==> (#[trigger] self.entries@[j]).name@ != name@,
            decreases self.entries@.len() - i,
        {
            if same_text(self.entries[i].name.as_str(), name) {
                return Some(i);
            }
            i = i + 1;
        }
        None
    }

    /// The state of the download of `name`, where it is known.
    pub fn get(&self, name: &str) -> (r: Option<DownloadState>)
        requires
            self.wf(),
        ensures
            r == if self@.contains_key(name@) {
                Some(self@[name@])
            } else {
                None
            },
    {
        match self.find(name) {
            Some(i) => {
                proof {
                    lemma_model_at(self.entries@, i as int);
                }
                Some(self.entries[i].state)
            },
            None => None,
        }
    }

    /// Number of downloads that are known.
    pub fn len(&self) -> (n: usize)
        requires
            self.wf(),
        ensures
            n == self@.dom().len(),
            self@.dom().finite(),
    {
        proof {
            lemma_model_size(self.entries@);
        }
        self.entries.len()
    }
}

proof fn lemma_model_size(entries: Seq<Entry>)
    requires
        names_unique(entries),
    ensures
        model(entries).dom().finite(),
        model(entries).dom().len() == entries.len(),
    decreases entries.len(),
{
    if entries.len() == 0 {
        assert(model(entries).dom() =~= Set::<Seq<char>>::empty());
    } else {
        let rest = entries.drop_last();
        let last = entries.last();
        lemma_model_size(rest);
        assert forall|name: Seq<char>| holds(entries, name) <==> (holds(rest, name) || name
            == last.name@) by {
            if holds(entries, name) {
                let i = place(entries, name);
                if i < rest.len() {
                    assert(rest[i].name@ == name);
                }
            }
            if holds(rest, name) {
                let i = place(rest, name);
                assert(entries[i].name@ == name);
            }
            if name == last.name@ {
                assert(entries[entries.len() - 1].name@ == name);
            }
        }
        assert(!holds(rest, last.name@)) by {
            if holds(rest, last.name@) {
                let i = place(rest, last.name@);
                assert(entries[i].name@ == entries[entries.len() - 1].name@);
            }
        }
        assert(model(entries).dom() =~= model(rest).dom().insert(last.name@));
    }
}

proof fn lemma_name_place(entries: Seq<Entry>, i: int)
    requires
        names_unique(entries),
        0 <= i < entries.len(),
    ensures
        names_of(entries).index_of(entries[i].name@) == i,
{
    let names = names_of(entries);
    assert(names[i] == entries[i].name@);
    let at = names.index_of(entries[i].name@);
    assert(0 <= at < names.len() && names[at] == entries[i].name@);
    assert(entries[at].name@ == entries[i].name@);
}

proof fn lemma_model_absent(entries: Seq<Entry>, name: Seq<char>)
    requires
        !holds(entries, name),
    ensures
        !model(entries).contains_key(name),
{
}

proof fn lemma_model_push(entries: Seq<Entry>, entry: Entry)
    requires
        names_unique(entries),
        !holds(entries, entry.name@),
    ensures
        names_unique(entries.push(entry)),
        model(entries.push(entry)) == model(entries).insert(entry.name@, entry.state),
{
    let after = entries.push(entry);
    assert forall|i: int, j: int|
        0 <= i < after.len() && 0 <= j < after.len() && i != j implies (#[trigger] after[i]).name@
        != (#[trigger] after[j]).name@ by {
        if i < entries.len() {
            assert(after[i] == entries[i]);
        }
        if j < entries.len() {
            assert(after[j] == entries[j]);
        }
    }
    let want = model(entries).insert(entry.name@, entry.state);
    assert forall|name: Seq<char>| model(after).contains_key(name) <==> want.contains_key(
        name,
    ) by {
        if holds(after, name) {
            let i = place(after, name);
            if i < entries.len() {
                assert(entries[i].name@ == name);
            }
        }
        if holds(entries, name) {
            let i = place(entries, name);
            assert(after[i].name@ == name);
        }
        if name == entry.name@ {
            assert(after[after.len() - 1].name@ == name);
        }
    }
    assert forall|name: Seq<char>| model(after).contains_key(name) implies model(after)[name]
        == want[name] by {
        let i = place(after, name);
        lemma_model_at(after, i);
        if i < entries.len() {
            assert(entries[i] == after[i]);
            lemma_model_at(entries, i);
        }
    }
    assert(model(after) =~= want);
}

proof fn lemma_model_update(entries: Seq<Entry>, at: int, entry: Entry)
    requires
        names_unique(entries),
        0 <= at < entries.len(),
        entry.name@ == entries[at].name@,
    ensures
        names_unique(entries.update(at, entry)),
        model(entries.update(at, entry)) == model(entries).insert(entry.name@, entry.state),
{
    let after = entries.update(at, entry);
    assert forall|i: int| 0 <= i < after.len() implies (#[trigger] after[i]).name@
        == entries[i].name@ by {}
    assert forall|i: int, j: int|
        0 <= i < after.len() && 0 <= j < after.len() && i != j implies (#[trigger] after[i]).name@
        != (#[trigger] after[j]).name@ by {
        assert(entries[i].name@ != entries[j].name@);
    }
    let want = model(entries).insert(entry.name@, entry.state);
    assert forall|name: Seq<char>| model(after).contains_key(name) <==> want.contains_key(
        name,
    ) by {
        if holds(after, name) {
            let i = place(after, name);
            assert(entries[i].name@ == name);
        }
        if holds(entries, name) {
            let i = place(entries, name);
            assert(after[i].name@ == name);
        }
        if name == entry.name@ {
            assert(after[at].name@ == name);
        }
    }
    assert forall|name: Seq<char>| model(after).contains_key(name) implies model(after)[name]
        == want[name] by {
        let i = place(after, name);
        lemma_model_at(after, i);
        if i != at {
            assert(entries[i] == after[i]);
            lemma_model_at(entries, i);
        }
    }
    assert(model(after) =~= want);
}

proof fn lemma_model_remove(entries: Seq<Entry>, at: int)
    requires
        names_unique(entries),
        0 <= at < entries.len(),
    ensures
        names_unique(entries.remove(at)),
        model(entries.remove(at)) == model(entries).remove(entries[at].name@),
{
    let after = entries.remove(at);
    let gone = entries[at].name@;
    assert forall|i: int| 0 <= i < after.len() implies #[trigger] after[i] == entries[if i < at {
        i
    } else {
        i + 1
    }] by {}
    assert forall|i: int, j: int|
        0 <= i < after.len() && 0 <= j < after.len() && i != j implies (#[trigger] after[i]).name@
        != (#[trigger] after[j]).name@ by {
        let ki = if i < at {
            i
        } else {
            i + 1
        };
        let kj = if j < at {
            j
        } else {
            j + 1
        };
        assert(entries[ki].name@ != entries[kj].name@);
    }
    let want = model(entries).remove(gone);
    assert forall|name: Seq<char>| model(after).contains_key(name) <==> want.contains_key(
        name,
    ) by {
        if holds(after, name) {
            let i = place(after, name);
            let k = if i < at {
                i
            } else {
                i + 1
            };
            assert(entries[k].name@ == name);
            assert(entries[k].name@ != entries[at].name@);
        }
        if holds(entries, name) && name != gone {
            let k = place(entries, name);
            let i = if k < at {
                k
            } else {
                k - 1
            };
            assert(after[i].name@ == name);
        }
    }
    assert forall|name: Seq<char>| model(after).contains_key(name) implies model(after)[name]
        == want[name] by {
        let i = place(after, name);
        let k = if i < at {
            i
        } else {
            i + 1
        };
        lemma_model_at(after, i);
        assert(entries[k] == after[i]);
        lemma_model_at(entries, k);
    }
    assert(model(after) =~= want);
}

impl DownloadRegistry {
    /// Takes a report in: a first report for a file name is entered, a later
    /// one replaces the entry where it has come further, and is dropped
    /// otherwise. So the bytes recorded for a file name never go down.
    pub fn record_progress(&mut self, report: DownloadProgress)
        requires
            old(self).wf(),
        ensures
            final(self).wf(),
            final(self)@ == recorded(
                old(self)@,
                report.file_name@,
                reported(
                    report.bytes_downloaded,
                    report.total_bytes,
                    report.mod_id,
                    report.file_id,
                ),
            ),
            old(self)@.contains_key(report.file_name@) ==> final(self)@.contains_key(
                report.file_name@,
            ) && final(self)@[report.file_name@].bytes_downloaded >= old(
                self,
            )@[report.file_name@].bytes_downloaded,
            final(self).names() == if old(self)@.contains_key(report.file_name@) {
                old(self).names()
            } else {
                old(self).names().push(report.file_name@)
            },
    {
        let state = DownloadState {
            bytes_downloaded: report.bytes_downloaded,
            total_bytes: report.total_bytes,
            mod_id: report.mod_id,
            file_id: report.file_id,
            metadata_saved: false,
        };
        let ghost before = self.entries@;
        match self.find(report.file_name.as_str()) {
            None => {
                let entry = Entry { name: report.file_name, state };
                proof {
                    lemma_model_absent(before, entry.name@);
                    lemma_model_push(before, entry);
                }
                self.entries.push(entry);
                assert(names_of(self.entries@) =~= names_of(before).push(entry.name@));
            },
            Some(i) => {
                proof {
                    lemma_model_at(before, i as int);
                }
                if self.entries[i].state.bytes_downloaded < report.bytes_downloaded {
                    let entry = Entry { name: report.file_name, state };
                    proof {
                        lemma_model_update(before, i as int, entry);
                    }
                    self.entries.set(i, entry);
                    assert(names_of(self.entries@) =~= names_of(before));
                }
            },
        }
    }

    /// Notes that the package record of the download of `name` has been made.
    /// Nothing changes where no such download is known.
    pub fn mark_saved(&mut self, name: &str)
        requires
            old(self).wf(),
        ensures
            final(self).wf(),
            final(self)@ == if old(self)@.contains_key(name@) {
                old(self)@.insert(name@, saved(old(self)@[name@]))
            } else {
                old(self)@
            },
            final(self).names() == old(self).names(),
    {
        let ghost before = self.entries@;
        match self.find(name) {
            None => {
                proof {
                    lemma_model_absent(before, name@);
                }
            },
            Some(i) => {
                let old_state = self.entries[i].state;
                let entry = Entry {
                    name: self.entries[i].name.clone(),
                    state: DownloadState {
                        bytes_downloaded: old_state.bytes_downloaded,
                        total_bytes: old_state.total_bytes,
                        mod_id: old_state.mod_id,
                        file_id: old_state.file_id,
                        metadata_saved: true,
                    },
                };
                proof {
                    lemma_model_at(before, i as int);
                    lemma_model_update(before, i as int, entry);
                }
                self.entries.set(i, entry);
                assert(names_of(self.entries@) =~= names_of(before));
            },
        }
    }

    /// Takes the download of `name` out of the registry once it is done, and
    /// says whether it did. A download that is unknown or still running stays.
    pub fn dismiss(&mut self, name: &str) -> (gone: bool)
        requires
            old(self).wf(),
        ensures
            final(self).wf(),
            gone == (old(self)@.contains_key(name@) && is_complete(old(self)@[name@])),
            final(self)@ == if gone {
                old(self)@.remove(name@)
            } else {
                old(self)@
            },
            final(self).names() == if gone {
                old(self).names().remove(old(self).names().index_of(name@))
            } else {
                old(self).names()
            },
    {
        let ghost before = self.entries@;
        match self.find(name) {
            None => {
                proof {
                    lemma_model_absent(before, name@);
                }
                false
            },
            Some(i) => {
                proof {
                    lemma_model_at(before, i as int);
                }
                let state = self.entries[i].state;
                if state.bytes_downloaded == state.total_bytes {
                    proof {
                        lemma_model_remove(before, i as int);
                        lemma_name_place(before, i as int);
                    }
                    let _ = self.entries.remove(i);
                    assert(names_of(self.entries@) =~= names_of(before).remove(i as int));
                    true
                } else {
                    false
                }
            },
        }
    }
}

/// The texts of `names` as plain values.
pub open spec fn texts(names: Seq<String>) -> Seq<Seq<char>> {
    names.map_values(|name: String| name@)
}

/// Those of `names`, in their order, whose download is done and waits for its
/// package record.
pub open spec fn waiting(m: Map<Seq<char>, DownloadState>, names: Seq<Seq<char>>) -> Seq<
    Seq<char>,
> {
    names.filter(|name: Seq<char>| m.contains_key(name) && awaits_metadata(m[name]))
}

/// The names in the order of entry are the names that are known, each once.
pub proof fn lemma_names_are_known(registry: DownloadRegistry)
    requires
        registry.wf(),
    ensures
        registry.names().no_duplicates(),
        forall|name: Seq<char>|
            registry.names().contains(name) <==> #[trigger] registry@.contains_key(name),
{
    let entries = registry.entries@;
    let names = names_of(entries);
    assert forall|i: int, j: int| 0 <= i < names.len() && 0 <= j < names.len() && i != j implies names[i]
        != names[j] by {
        assert(entries[i].name@ != entries[j].name@);
    }
    assert forall|name: Seq<char>| names.contains(name) <==> #[trigger] registry@.contains_key(
        name,
    ) by {
        if names.contains(name) {
            let i = choose|i: int| 0 <= i < names.len() && names[i] == name;
            assert(entries[i].name@ == name);
        }
        if holds(entries, name) {
            let i = place(entries, name);
            assert(names[i] == name);
        }
    }
}

impl DownloadRegistry {
    /// The file names of the downloads that are done and whose package record
    /// is still to be made, each once, in the order in which they were entered.
    pub fn pending(&self) -> (names: Vec<String>)
        requires
            self.wf(),
        ensures
            texts(names@) == waiting(self@, self.names()),
            forall|j: int|
                0 <= j < names@.len() ==> self@.contains_key((#[trigger] names@[j])@)
                    && awaits_metadata(self@[names@[j]@]),
            forall|name: Seq<char>|
                self@.contains_key(name) && awaits_metadata(self@[name]) ==> exists|j: int|
                    0 <= j < names@.len() && (#[trigger] names@[j])@ == name,
            forall|i: int, j: int|
                0 <= i < names@.len() && 0 <= j < names@.len() && i != j ==> (
                #[trigger] names@[i])@ != (#[trigger] names@[j])@,
    {
        let mut names: Vec<String> = Vec::new();
        let ghost mut source: Seq<int> = Seq::empty();
        let ghost all = names_of(self.entries@);
        let ghost known = model(self.entries@);
        let mut i: usize = 0;
        proof {
            reveal(Seq::filter);
            assert(all.take(0) =~= Seq::<Seq<char>>::empty());
            assert(texts(names@) =~= Seq::<Seq<char>>::empty());
        }
        while i < self.entries.len()
            invariant
                i <= self.entries@.len(),
                names_unique(self.entries@),
                all == names_of(self.entries@),
                known == model(self.entries@),
                texts(names@) == waiting(known, all.take(i as int)),
                source.len() == names@.len(),
                forall|j: int|
                    0 <= j < names@.len() ==> 0 <= #[trigger] source[j] < i && (names@[j])@
                        == self.entries@[source[j]].name@ && awaits_metadata(
                        self.entries@[source[j]].state,
                    ),
                forall|k: int|
                    0 <= k < i && awaits_metadata((#[trigger] self.entries@[k]).state)
                        ==> exists|j: int| 0 <= j < names@.len() && source[j] == k,
                forall|a: int, b: int|
                    0 <= a < names@.len() && 0 <= b < names@.len() && a != b ==> #[trigger] source[a]
                        != #[trigger] source[b],
            decreases self.entries@.len() - i,
        {
            let state = self.entries[i].state;
            let ghost listed = texts(names@);
            proof {
                reveal(Seq::filter);
                lemma_model_at(self.entries@, i as int);
                assert(all.take(i + 1).drop_last() =~= all.take(i as int));
                assert(all.take(i + 1).last() == self.entries@[i as int].name@);
            }
            if state.bytes_downloaded == state.total_bytes && !state.metadata_saved {
                let ghost before = source;
                let ghost count = names@.len() as int;
                names.push(self.entries[i].name.clone());
                proof {
                    assert(texts(names@) =~= listed.push(self.entries@[i as int].name@));
                    source = source.push(i as int);
                    assert forall|k: int|
                        0 <= k < i + 1 && awaits_metadata(
                            (#[trigger] self.entries@[k]).state,
                        ) implies exists|j: int| 0 <= j < names@.len() && source[j] == k by {
                        if k < i {
                            let j = choose|j: int| 0 <= j < count && before[j] == k;
                            assert(source[j] == k);
                        } else {
                            assert(source[count] == k);
                        }
                    }
                }
            }
            i = i + 1;
        }
        proof {
            assert(all.take(self.entries@.len() as int) =~= all);
            assert forall|j: int| 0 <= j < names@.len() implies self@.contains_key(
                (#[trigger] names@[j])@,
            ) && awaits_metadata(self@[names@[j]@]) by {
                lemma_model_at(self.entries@, source[j]);
            }
            assert forall|name: Seq<char>|
                self@.contains_key(name) && awaits_metadata(self@[name]) implies exists|j: int|
                0 <= j < names@.len() && (#[trigger] names@[j])@ == name by {
                let k = place(self.entries@, name);
                lemma_model_at(self.entries@, k);
                let j = choose|j: int| 0 <= j < names@.len() && source[j] == k;
                assert(names@[j]@ == name);
            }
            assert forall|a: int, b: int|
                0 <= a < names@.len() && 0 <= b < names@.len() && a != b implies (
            #[trigger] names@[a])@ != (#[trigger] names@[b])@ by {
                assert(source[a] != source[b]);
                assert(self.entries@[source[a]].name@ != self.entries@[source[b]].name@);
            }
        }
        names
    }
}

/// The registry after a run of reports for one file name, taken in order.
pub open spec fn after_reports(
    m: Map<Seq<char>, DownloadState>,
    name: Seq<char>,
    reports: Seq<DownloadState>,
) -> Map<Seq<char>, DownloadState>
    decreases reports.len(),
{
    if reports.len() == 0 {
        m
    } else {
        recorded(after_reports(m, name, reports.drop_last()), name, reports.last())
    }
}

/// Over any run of reports for one file name, the bytes recorded for it never
/// go down: what is recorded after the first `later` reports is at least what
/// was recorded after the first `earlier` ones.
pub proof fn lemma_progress_never_falls(
    m: Map<Seq<char>, DownloadState>,
    name: Seq<char>,
    reports: Seq<DownloadState>,
    earlier: int,
    later: int,
)
    requires
        0 <= earlier <= later <= reports.len(),
        after_reports(m, name, reports.subrange(0, earlier)).contains_key(name),
    ensures
        after_reports(m, name, reports.subrange(0, later)).contains_key(name),
        after_reports(m, name, reports.subrange(0, later))[name].bytes_downloaded
            >= after_reports(m, name, reports.subrange(0, earlier))[name].bytes_downloaded,
    decreases later - earlier,
{
    if earlier < later {
        lemma_progress_never_falls(m, name, reports, earlier, later - 1);
        let longer = reports.subrange(0, later);
        assert(longer.drop_last() =~= reports.subrange(0, later - 1));
    }
}

/// A run of reports for one file name leaves the other downloads as they were.
pub proof fn lemma_reports_touch_one_name(
    m: Map<Seq<char>, DownloadState>,
    name: Seq<char>,
    reports: Seq<DownloadState>,
    other: Seq<char>,
)
    requires
        other != name,
    ensures
        after_reports(m, name, reports).contains_key(other) == m.contains_key(other),
        m.contains_key(other) ==> after_reports(m, name, reports)[other] == m[other],
    decreases reports.len(),
{
    if reports.len() > 0 {
        lemma_reports_touch_one_name(m, name, reports.drop_last(), other);
    }
}

} // verus!
