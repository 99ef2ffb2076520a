use vstd::prelude::*;

use crate::errors::BuildError;
use crate::fs_model::{FsModel, FsView, fsv_write, clone_bytes};
use crate::paths::{is_prefix_of, path_join, path_starts_with};

verus! {

/// One entry of a downloaded archive: a file path inside the archive and
/// that file's contents.
pub struct ArchiveEntry {
    pub path: Vec<String>,
    pub data: Vec<u8>,
}

/// The spec-level form of an archive entry.
#[verifier::ext_equal]
pub struct EntryView {
    pub path: Seq<Seq<char>>,
    pub data: Seq<u8>,
}

impl DeepView for ArchiveEntry {
    type V = EntryView;

    open spec fn deep_view(&self) -> EntryView {
        EntryView { path: self.path.deep_view(), data: self.data.deep_view() }
    }
}

/// A downloaded archive: the local file name the download produced and
/// the entries the archive holds.
pub struct Archive {
    pub filename: String,
    pub entries: Vec<ArchiveEntry>,
}

/// Is an entry at `path` selected, given the include list?  An empty
/// include list selects everything.
pub open spec fn entry_included(path: Seq<Seq<char>>, includes: Seq<Seq<Seq<char>>>) -> bool {
    includes.len() == 0 || exists|i: int| 0 <= i < includes.len() && is_prefix_of(
        includes[i],
        path,
    )
}

/// A well-formed archive has no entry with an empty path.
pub open spec fn archive_wf(entries: Seq<EntryView>) -> bool {
    forall|i: int| 0 <= i < entries.len() ==> entries[i].path.len() > 0
}

/// The state after unpacking `entries` into `dest`, restricted to the
/// include list: each selected entry is written, in order, at
/// `dest / entry.path`, through the mount table.
pub open spec fn fsv_unpack(
    f: FsView,
    dest: Seq<Seq<char>>,
    entries: Seq<EntryView>,
    includes: Seq<Seq<Seq<char>>>,
) -> FsView
    decreases entries.len(),
{
    if entries.len() == 0 {
        f
    } else {
        let f1 = fsv_unpack(f, dest, entries.drop_last(), includes);
        let e = entries.last();
        if entry_included(e.path, includes) {
            fsv_write(f1, dest + e.path, e.data)
        } else {
            f1
        }
    }
}

/// Unpacking never touches the mount table.
pub proof fn lemma_unpack_mounts(
    f: FsView,
    dest: Seq<Seq<char>>,
    entries: Seq<EntryView>,
    includes: Seq<Seq<Seq<char>>>,
)
    ensures
        fsv_unpack(f, dest, entries, includes).mounts == f.mounts,
    decreases entries.len(),
{
    if entries.len() > 0 {
        lemma_unpack_mounts(f, dest, entries.drop_last(), includes);
    }
}

/// Is the entry at `path` selected by the include list?
#[verifier::loop_isolation(false)]
fn included_exec(path: &Vec<String>, includes: &Vec<Vec<String>>) -> (r: bool)
    ensures
        r == entry_included(path.deep_view(), includes.deep_view()),
{
    if includes.len() == 0 {
        return true;
    }
    let mut i: usize = 0;
    while i < includes.len()
        invariant
            i <= includes.len(),
            forall|j: int|
                0 <= j < i ==> !is_prefix_of(includes.deep_view()[j], path.deep_view()),
        decreases includes.len() - i,
    {
        if path_starts_with(path, &includes[i]) {
            proof {
                assert(is_prefix_of(includes.deep_view()[i as int], path.deep_view()));
            }
            return true;
        }
        i = i + 1;
    }
    false
}

/// Unpack `archive` into `dest`: every selected entry is written at
/// `dest / entry.path`, through the mount table, in archive order.  A
/// malformed archive (an entry with an empty path) is refused before
/// anything is written.
#[verifier::loop_isolation(false)]
pub fn unpack_archive(
    fs: &mut FsModel,
    archive: &Archive,
    dest: &Vec<String>,
    includes: &Vec<Vec<String>>,
) -> (r: Result<(), BuildError>)
    ensures
        r.is_ok() <==> archive_wf(archive.entries.deep_view()),
        r.is_ok() ==> final(fs)@ == fsv_unpack(
            old(fs)@,
            dest.deep_view(),
            archive.entries.deep_view(),
            includes.deep_view(),
        ),
        r.is_err() ==> final(fs)@ == old(fs)@ && r == Err::<(), BuildError>(
            BuildError::ExtractionFailed,
        ),
{
    let ghost entries = archive.entries.deep_view();
    let mut i: usize = 0;
    while i < archive.entries.len()
        invariant
            i <= archive.entries.len(),
            forall|j: int| 0 <= j < i ==> entries[j].path.len() > 0,
            fs@ == old(fs)@,
        decreases archive.entries.len() - i,
    {
        if archive.entries[i].path.len() == 0 {
            proof {
                assert(entries[i as int].path.len() == 0);
            }
            return Err(BuildError::ExtractionFailed);
        }
        i = i + 1;
    }
    let mut i: usize = 0;
    while i < archive.entries.len()
        invariant
            i <= archive.entries.len(),
            fs@ == fsv_unpack(old(fs)@, dest.deep_view(), entries.take(i as int), includes.deep_view()),
        decreases archive.entries.len() - i,
    {
        let e = &archive.entries[i];
        proof {
            assert(entries.take(i + 1).drop_last() =~= entries.take(i as int));
            assert(entries.take(i + 1).last() == entries[i as int]);
        }
        if included_exec(&e.path, includes) {
            let target = path_join(dest, &e.path);
            let data = clone_bytes(&e.data);
            proof {
                assert(target.deep_view() == dest.deep_view() + entries[i as int].path);
                assert(data@ =~= entries[i as int].data);
            }
            fs.write_file(&target, data);
        }
        i = i + 1;
    }
    proof {
        assert(entries.take(archive.entries.len() as int) =~= entries);
    }
    Ok(())
}

} // verus!
