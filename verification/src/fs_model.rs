use vstd::prelude::*;

use crate::errors::BuildError;
use crate::paths::{is_prefix_of, strictly_under, prefixes_of, parent_of, path_eq, path_starts_with, path_clone,
    path_join, path_skip, path_take};

verus! {

// ---------------------------------------------------------------------------
// The abstract state
// ---------------------------------------------------------------------------

/// The observable state of the modelled root tree: which directories exist,
/// which files exist with what contents, and the table of bind mounts as
/// `(target, source)` pairs, most recent last.  A write under a mount's
/// target lands under its source.
#[verifier::ext_equal]
pub struct FsView {
    pub dirs: Set<Seq<Seq<char>>>,
    pub files: Map<Seq<Seq<char>>, Seq<u8>>,
    pub mounts: Seq<(Seq<Seq<char>>, Seq<Seq<char>>)>,
}

/// The directories named by a sequence of paths, as a set.
pub open spec fn dirs_set_of(s: Seq<Seq<Seq<char>>>) -> Set<Seq<Seq<char>>>
    decreases s.len(),
{
    if s.len() == 0 {
        Set::empty()
    } else {
        dirs_set_of(s.drop_last()).insert(s.last())
    }
}

/// The file mapping described by a list of `(path, contents)` entries;
/// a later entry for the same path wins.
pub open spec fn files_map_of(s: Seq<(Seq<Seq<char>>, Seq<u8>)>) -> Map<Seq<Seq<char>>, Seq<u8>>
    decreases s.len(),
{
    if s.len() == 0 {
        Map::empty()
    } else {
        files_map_of(s.drop_last()).insert(s.last().0, s.last().1)
    }
}

/// The path a write at `p` actually lands on: the most recent bind mount
/// whose target is a prefix of `p` redirects that prefix to its source.
pub open spec fn resolve(
    mounts: Seq<(Seq<Seq<char>>, Seq<Seq<char>>)>,
    p: Seq<Seq<char>>,
) -> Seq<Seq<char>>
    decreases mounts.len(),
{
    if mounts.len() == 0 {
        p
    } else if is_prefix_of(mounts.last().0, p) {
        mounts.last().1 + p.skip(mounts.last().0.len() as int)
    } else {
        resolve(mounts.drop_last(), p)
    }
}

/// A recursive directory creation is blocked when an existing file sits
/// at the path or one of its ancestors.
pub open spec fn mkdir_blocked(f: FsView, p: Seq<Seq<char>>) -> bool {
    exists|n: int| 0 <= n <= p.len() && f.files.contains_key(p.take(n))
}

/// The state after writing `data` at `p`: the write is redirected through
/// the mount table, the landing path's ancestors become directories, and
/// the file is created or overwritten.
pub open spec fn fsv_write(f: FsView, p: Seq<Seq<char>>, data: Seq<u8>) -> FsView {
    let rp = resolve(f.mounts, p);
    FsView {
        dirs: f.dirs.union(prefixes_of(parent_of(rp))),
        files: f.files.insert(rp, data),
        mounts: f.mounts,
    }
}


/// The paths at or under `p`.
pub open spec fn under_set(p: Seq<Seq<char>>) -> Set<Seq<Seq<char>>> {
    Set::new(|q: Seq<Seq<char>>| is_prefix_of(p, q))
}

/// The paths strictly under `p`.
pub open spec fn strict_under_set(p: Seq<Seq<char>>) -> Set<Seq<Seq<char>>> {
    Set::new(|q: Seq<Seq<char>>| strictly_under(p, q))
}

/// A cleanup that keeps the directory itself is blocked when an existing
/// file sits at a strict ancestor of the path.
pub open spec fn ancestor_file_blocks(f: FsView, p: Seq<Seq<char>>) -> bool {
    exists|n: int| 0 <= n < p.len() && f.files.contains_key(p.take(n))
}

/// The state after a recursive directory creation at `p`.
pub open spec fn fsv_mkdir(f: FsView, p: Seq<Seq<char>>) -> FsView {
    FsView { dirs: f.dirs.union(prefixes_of(p)), files: f.files, mounts: f.mounts }
}

/// The state after removing `p` and everything under it.
pub open spec fn fsv_remove_tree(f: FsView, p: Seq<Seq<char>>) -> FsView {
    FsView {
        dirs: f.dirs.difference(under_set(p)),
        files: f.files.remove_keys(under_set(p)),
        mounts: f.mounts,
    }
}

/// The state after emptying `p`: everything under it is gone, the
/// directory itself (and its ancestors) exist.
pub open spec fn fsv_empty_tree(f: FsView, p: Seq<Seq<char>>) -> FsView {
    FsView {
        dirs: f.dirs.difference(strict_under_set(p)).union(prefixes_of(p)),
        files: f.files.remove_keys(under_set(p)),
        mounts: f.mounts,
    }
}

/// The index of the most recent mount whose target is `t`, or `-1`.
pub open spec fn last_mount_index(
    mounts: Seq<(Seq<Seq<char>>, Seq<Seq<char>>)>,
    t: Seq<Seq<char>>,
) -> int
    decreases mounts.len(),
{
    if mounts.len() == 0 {
        -1
    } else if mounts.last().0 == t {
        mounts.len() - 1
    } else {
        last_mount_index(mounts.drop_last(), t)
    }
}

// ---------------------------------------------------------------------------
// The model
// ---------------------------------------------------------------------------

/// In-memory model of the root tree that a build mutates.  Duplicate
/// entries in the backing lists are harmless: the view collapses them.
pub struct FsModel {
    dirs: Vec<Vec<String>>,
    files: Vec<(Vec<String>, Vec<u8>)>,
    mounts: Vec<(Vec<String>, Vec<String>)>,
}

impl View for FsModel {
    type V = FsView;

    closed spec fn view(&self) -> FsView {
        FsView {
            dirs: dirs_set_of(self.dirs.deep_view()),
            files: files_map_of(self.files.deep_view()),
            mounts: self.mounts.deep_view(),
        }
    }
}

// ---------------------------------------------------------------------------
// Facts about the view folds
// ---------------------------------------------------------------------------

proof fn lemma_dirs_set_contains(s: Seq<Seq<Seq<char>>>, x: Seq<Seq<char>>)
    ensures
        dirs_set_of(s).contains(x) <==> exists|i: int| 0 <= i < s.len() && s[i] == x,
    decreases s.len(),
{
    if s.len() > 0 {
        lemma_dirs_set_contains(s.drop_last(), x);
        if dirs_set_of(s).contains(x) {
            if s.last() == x {
                assert(s[s.len() - 1] == x);
            } else {
                let i = choose|i: int| 0 <= i < s.drop_last().len() && s.drop_last()[i] == x;
                assert(s[i] == x);
            }
        }
        if exists|i: int| 0 <= i < s.len() && s[i] == x {
            let i = choose|i: int| 0 <= i < s.len() && s[i] == x;
            if i < s.len() - 1 {
                assert(s.drop_last()[i] == x);
            }
        }
    }
}

proof fn lemma_dirs_set_push(s: Seq<Seq<Seq<char>>>, x: Seq<Seq<char>>)
    ensures
        dirs_set_of(s.push(x)) == dirs_set_of(s).insert(x),
{
    assert(s.push(x).drop_last() =~= s);
    assert(s.push(x).last() == x);
}

proof fn lemma_files_map_key(s: Seq<(Seq<Seq<char>>, Seq<u8>)>, k: Seq<Seq<char>>)
    ensures
        files_map_of(s).contains_key(k) <==> exists|i: int| 0 <= i < s.len() && s[i].0 == k,
    decreases s.len(),
{
    if s.len() > 0 {
        lemma_files_map_key(s.drop_last(), k);
        if files_map_of(s).contains_key(k) {
            if s.last().0 == k {
                assert(s[s.len() - 1].0 == k);
            } else {
                let i = choose|i: int| 0 <= i < s.drop_last().len() && s.drop_last()[i].0 == k;
                assert(s[i].0 == k);
            }
        }
        if exists|i: int| 0 <= i < s.len() && s[i].0 == k {
            let i = choose|i: int| 0 <= i < s.len() && s[i].0 == k;
            if i < s.len() - 1 {
                assert(s.drop_last()[i].0 == k);
            }
        }
    }
}

proof fn lemma_files_map_push(s: Seq<(Seq<Seq<char>>, Seq<u8>)>, e: (Seq<Seq<char>>, Seq<u8>))
    ensures
        files_map_of(s.push(e)) == files_map_of(s).insert(e.0, e.1),
{
    assert(s.push(e).drop_last() =~= s);
    assert(s.push(e).last() == e);
}


proof fn lemma_prefix_with_len(p: Seq<Seq<char>>, n: int)
    requires
        0 <= n <= p.len(),
    ensures
        forall|q: Seq<Seq<char>>| is_prefix_of(q, p) && q.len() == n ==> q == p.take(n),
{
    assert forall|q: Seq<Seq<char>>| is_prefix_of(q, p) && q.len() == n implies q == p.take(n) by {
        assert(q =~= p.take(n));
    }
}

proof fn lemma_files_map_value(s: Seq<(Seq<Seq<char>>, Seq<u8>)>, i: int)
    requires
        0 <= i < s.len(),
        forall|j: int| i < j < s.len() ==> s[j].0 != s[i].0,
    ensures
        files_map_of(s).contains_key(s[i].0),
        files_map_of(s)[s[i].0] == s[i].1,
    decreases s.len(),
{
    if i == s.len() - 1 {
    } else {
        assert(s.drop_last()[i] == s[i]);
        lemma_files_map_value(s.drop_last(), i);
        assert(s.last().0 != s[i].0);
    }
}

// ---------------------------------------------------------------------------
// Executable operations
// ---------------------------------------------------------------------------

impl FsModel {
    /// A fresh tree: only the root directory exists, nothing is mounted.
    pub fn new() -> (r: FsModel)
        ensures
            r@.dirs =~= Set::empty().insert(Seq::<Seq<char>>::empty()),
            r@.files =~= Map::<Seq<Seq<char>>, Seq<u8>>::empty(),
            r@.mounts =~= Seq::<(Seq<Seq<char>>, Seq<Seq<char>>)>::empty(),
    {
        let mut dirs: Vec<Vec<String>> = Vec::new();
        let root: Vec<String> = Vec::new();
        dirs.push(root);
        let r = FsModel { dirs, files: Vec::new(), mounts: Vec::new() };
        proof {
            assert(r.dirs.deep_view() =~~= Seq::<Seq<Seq<char>>>::empty().push(
                Seq::<Seq<char>>::empty(),
            ));
            lemma_dirs_set_push(Seq::empty(), Seq::empty());
            assert(r.files.deep_view() =~= Seq::<(Seq<Seq<char>>, Seq<u8>)>::empty());
            assert(r.mounts.deep_view() =~= Seq::<(Seq<Seq<char>>, Seq<Seq<char>>)>::empty());
        }
        r
    }

    /// Does a directory exist at `p`?
    #[verifier::loop_isolation(false)]
    pub fn dir_exists(&self, p: &Vec<String>) -> (r: bool)
        ensures
            r <==> self@.dirs.contains(p.deep_view()),
    {
        proof {
            lemma_dirs_set_contains(self.dirs.deep_view(), p.deep_view());
        }
        let mut i: usize = 0;
        while i < self.dirs.len()
            invariant
                i <= self.dirs.len(),
                forall|j: int| 0 <= j < i ==> self.dirs.deep_view()[j] != p.deep_view(),
            decreases self.dirs.len() - i,
        {
            if path_eq(&self.dirs[i], p) {
                proof {
                    assert(self.dirs.deep_view()[i as int] == p.deep_view());
                }
                return true;
            }
            i = i + 1;
        }
        false
    }

    /// Does a file exist at `p`?
    #[verifier::loop_isolation(false)]
    pub fn file_exists(&self, p: &Vec<String>) -> (r: bool)
        ensures
            r <==> self@.files.contains_key(p.deep_view()),
    {
        proof {
            lemma_files_map_key(self.files.deep_view(), p.deep_view());
        }
        let mut i: usize = 0;
        while i < self.files.len()
            invariant
                i <= self.files.len(),
                forall|j: int| 0 <= j < i ==> self.files.deep_view()[j].0 != p.deep_view(),
            decreases self.files.len() - i,
        {
            if path_eq(&self.files[i].0, p) {
                proof {
                    assert(self.files.deep_view()[i as int].0 == p.deep_view());
                }
                return true;
            }
            i = i + 1;
        }
        false
    }

    /// Is some bind mount with target `t` active?
    #[verifier::loop_isolation(false)]
    pub fn is_mounted(&self, t: &Vec<String>) -> (r: bool)
        ensures
            r <==> exists|i: int|
                0 <= i < self@.mounts.len() && self@.mounts[i].0 == t.deep_view(),
    {
        let mut i: usize = 0;
        while i < self.mounts.len()
            invariant
                i <= self.mounts.len(),
                forall|j: int| 0 <= j < i ==> self.mounts.deep_view()[j].0 != t.deep_view(),
            decreases self.mounts.len() - i,
        {
            if path_eq(&self.mounts[i].0, t) {
                proof {
                    assert(self.mounts.deep_view()[i as int].0 == t.deep_view());
                    assert(self@.mounts[i as int].0 == t.deep_view());
                    assert(exists|j: int|
                        0 <= j < self@.mounts.len() && self@.mounts[j].0 == t.deep_view());
                }
                return true;
            }
            i = i + 1;
        }
        false
    }
}


/// A fresh copy of a byte string.
pub(crate) fn clone_bytes(v: &Vec<u8>) -> (r: Vec<u8>)
    ensures
        r@ == v@,
{
    let mut r: Vec<u8> = Vec::new();
    let mut i: usize = 0;
    while i < v.len()
        invariant
            i <= v.len(),
            r@ =~= v@.take(i as int),
        decreases v.len() - i,
    {
        r.push(v[i]);
        proof {
            assert(v@.take(i + 1) =~= v@.take(i as int).push(v@[i as int]));
        }
        i = i + 1;
    }
    proof {
        assert(r@ =~= v@);
    }
    r
}

impl FsModel {
    /// Record one directory entry.
    fn push_dir(&mut self, d: Vec<String>)
        ensures
            final(self)@.dirs == old(self)@.dirs.insert(d.deep_view()),
            final(self)@.files == old(self)@.files,
            final(self)@.mounts == old(self)@.mounts,
    {
        let ghost prev = self.dirs.deep_view();
        let ghost dv = d.deep_view();
        self.dirs.push(d);
        proof {
            assert(self.dirs.deep_view() =~~= prev.push(dv));
            lemma_dirs_set_push(prev, dv);
        }
    }

    /// Make `p` and each of its ancestors a directory, unconditionally.
    #[verifier::loop_isolation(false)]
    fn push_all_prefixes(&mut self, p: &Vec<String>)
        ensures
            final(self)@.dirs == old(self)@.dirs.union(prefixes_of(p.deep_view())),
            final(self)@.files == old(self)@.files,
            final(self)@.mounts == old(self)@.mounts,
    {
        let ghost pdv = p.deep_view();
        let mut n: usize = 0;
        while n < p.len()
            invariant
                n <= p.len(),
                self@.dirs =~= old(self)@.dirs.union(
                    Set::new(|q: Seq<Seq<char>>| is_prefix_of(q, pdv) && q.len() < n),
                ),
                self@.files == old(self)@.files,
                self@.mounts == old(self)@.mounts,
            decreases p.len() - n,
        {
            let pref = path_take(p, n);
            self.push_dir(pref);
            proof {
                lemma_prefix_with_len(pdv, n as int);
                assert(is_prefix_of(pdv.take(n as int), pdv));
                assert(self@.dirs =~= old(self)@.dirs.union(
                    Set::new(|q: Seq<Seq<char>>| is_prefix_of(q, pdv) && q.len() < n + 1),
                ));
            }
            n = n + 1;
        }
        let whole = path_clone(p);
        self.push_dir(whole);
        proof {
            lemma_prefix_with_len(pdv, p.len() as int);
            assert(pdv.take(p.len() as int) =~= pdv);
            assert(is_prefix_of(pdv, pdv));
            assert(self@.dirs =~= old(self)@.dirs.union(prefixes_of(pdv)));
        }
    }

    /// Create the directory `p` and every missing ancestor; refused when a
    /// file sits at `p` or at one of its ancestors.
    #[verifier::loop_isolation(false)]
    pub fn mkdir_rec(&mut self, p: &Vec<String>) -> (r: Result<(), BuildError>)
        ensures
            r.is_ok() <==> !mkdir_blocked(old(self)@, p.deep_view()),
            r.is_ok() ==> final(self)@ == fsv_mkdir(old(self)@, p.deep_view()),
            r.is_err() ==> final(self)@ == old(self)@ && r == Err::<(), BuildError>(
                BuildError::FilesystemError,
            ),
    {
        let ghost pdv = p.deep_view();
        let mut n: usize = 0;
        while n < p.len()
            invariant
                n <= p.len(),
                forall|m: int| 0 <= m < n ==> !old(self)@.files.contains_key(pdv.take(m)),
                self@ == old(self)@,
            decreases p.len() - n,
        {
            let pref = path_take(p, n);
            if self.file_exists(&pref) {
                proof {
                    assert(old(self)@.files.contains_key(pdv.take(n as int)));
                }
                return Err(BuildError::FilesystemError);
            }
            n = n + 1;
        }
        if self.file_exists(p) {
            proof {
                assert(pdv.take(p.len() as int) =~= pdv);
                assert(old(self)@.files.contains_key(pdv.take(p.len() as int)));
            }
            return Err(BuildError::FilesystemError);
        }
        proof {
            assert(pdv.take(p.len() as int) =~= pdv);
            assert(!mkdir_blocked(old(self)@, pdv));
        }
        self.push_all_prefixes(p);
        proof {
            assert(self@ =~= fsv_mkdir(old(self)@, pdv));
        }
        Ok(())
    }

    /// Drop every file entry at or under `p`.
    #[verifier::loop_isolation(false)]
    fn remove_files_under(&mut self, p: &Vec<String>)
        ensures
            final(self)@.files == old(self)@.files.remove_keys(under_set(p.deep_view())),
            final(self)@.dirs == old(self)@.dirs,
            final(self)@.mounts == old(self)@.mounts,
    {
        let ghost pdv = p.deep_view();
        let ghost orig = self.files.deep_view();
        let mut kept: Vec<(Vec<String>, Vec<u8>)> = Vec::new();
        let mut i: usize = 0;
        while i < self.files.len()
            invariant
                i <= self.files.len(),
                files_map_of(kept.deep_view()) =~= files_map_of(orig.take(i as int)).remove_keys(
                    under_set(pdv),
                ),
            decreases self.files.len() - i,
        {
            let ghost k = orig[i as int].0;
            let ghost v = orig[i as int].1;
            proof {
                assert(orig.take(i + 1).drop_last() =~= orig.take(i as int));
                assert(orig.take(i + 1).last() == orig[i as int]);
            }
            if !path_starts_with(&self.files[i].0, p) {
                let ck = path_clone(&self.files[i].0);
                let cv = clone_bytes(&self.files[i].1);
                let ghost prev_kept = kept.deep_view();
                kept.push((ck, cv));
                proof {
                    assert(kept.deep_view() =~~= prev_kept.push((k, v)));
                    lemma_files_map_push(prev_kept, (k, v));
                    assert(!under_set(pdv).contains(k));
                    assert(files_map_of(kept.deep_view()) =~= files_map_of(
                        orig.take(i + 1),
                    ).remove_keys(under_set(pdv)));
                }
            } else {
                proof {
                    assert(under_set(pdv).contains(k));
                    assert(files_map_of(kept.deep_view()) =~= files_map_of(
                        orig.take(i + 1),
                    ).remove_keys(under_set(pdv)));
                }
            }
            i = i + 1;
        }
        proof {
            assert(orig.take(self.files.len() as int) =~= orig);
        }
        self.files = kept;
    }

    /// Drop every directory entry under `p`; with `keep_root` false, `p`
    /// itself as well.
    #[verifier::loop_isolation(false)]
    fn remove_dirs_under(&mut self, p: &Vec<String>, keep_root: bool)
        ensures
            keep_root ==> final(self)@.dirs == old(self)@.dirs.difference(
                strict_under_set(p.deep_view()),
            ),
            !keep_root ==> final(self)@.dirs == old(self)@.dirs.difference(under_set(p.deep_view())),
            final(self)@.files == old(self)@.files,
            final(self)@.mounts == old(self)@.mounts,
    {
        let ghost pdv = p.deep_view();
        let ghost dropped: Set<Seq<Seq<char>>> = if keep_root {
            strict_under_set(pdv)
        } else {
            under_set(pdv)
        };
        let ghost orig = self.dirs.deep_view();
        let mut kept: Vec<Vec<String>> = Vec::new();
        let mut i: usize = 0;
        while i < self.dirs.len()
            invariant
                i <= self.dirs.len(),
                dirs_set_of(kept.deep_view()) =~= dirs_set_of(orig.take(i as int)).difference(
                    dropped,
                ),
            decreases self.dirs.len() - i,
        {
            let ghost d = orig[i as int];
            proof {
                assert(orig.take(i + 1).drop_last() =~= orig.take(i as int));
                assert(orig.take(i + 1).last() == orig[i as int]);
            }
            let starts = path_starts_with(&self.dirs[i], p);
            let drop_it = starts && (!keep_root || self.dirs[i].len() > p.len());
            if !drop_it {
                let cd = path_clone(&self.dirs[i]);
                let ghost prev_kept = kept.deep_view();
                kept.push(cd);
                proof {
                    assert(kept.deep_view() =~~= prev_kept.push(d));
                    lemma_dirs_set_push(prev_kept, d);
                    assert(!dropped.contains(d));
                    assert(dirs_set_of(kept.deep_view()) =~= dirs_set_of(
                        orig.take(i + 1),
                    ).difference(dropped));
                }
            } else {
                proof {
                    assert(dropped.contains(d));
                    assert(dirs_set_of(kept.deep_view()) =~= dirs_set_of(
                        orig.take(i + 1),
                    ).difference(dropped));
                }
            }
            i = i + 1;
        }
        proof {
            assert(orig.take(self.dirs.len() as int) =~= orig);
        }
        self.dirs = kept;
    }

    /// Recursively clean the tree at `p`.  With `remove_root` true the
    /// directory itself disappears; with it false the directory is kept
    /// (created if absent) and only its contents disappear.
    #[verifier::loop_isolation(false)]
    pub fn clean_dir(&mut self, p: &Vec<String>, remove_root: bool) -> (r: Result<(), BuildError>)
        ensures
            remove_root ==> r.is_ok() && final(self)@ == fsv_remove_tree(old(self)@, p.deep_view()),
            !remove_root ==> {
                &&& (r.is_ok() <==> !ancestor_file_blocks(old(self)@, p.deep_view()))
                &&& (r.is_ok() ==> final(self)@ == fsv_empty_tree(old(self)@, p.deep_view()))
                &&& (r.is_err() ==> final(self)@ == old(self)@ && r == Err::<(), BuildError>(
                    BuildError::FilesystemError,
                ))
            },
    {
        let ghost pdv = p.deep_view();
        if remove_root {
            self.remove_files_under(p);
            self.remove_dirs_under(p, false);
            proof {
                assert(self@ =~= fsv_remove_tree(old(self)@, pdv));
            }
            Ok(())
        } else {
            let mut n: usize = 0;
            while n < p.len()
                invariant
                    n <= p.len(),
                    forall|m: int| 0 <= m < n ==> !old(self)@.files.contains_key(pdv.take(m)),
                    self@ == old(self)@,
                decreases p.len() - n,
            {
                let pref = path_take(p, n);
                if self.file_exists(&pref) {
                    proof {
                        assert(old(self)@.files.contains_key(pdv.take(n as int)));
                    }
                    return Err(BuildError::FilesystemError);
                }
                n = n + 1;
            }
            self.remove_files_under(p);
            self.remove_dirs_under(p, true);
            self.push_all_prefixes(p);
            proof {
                assert(self@ =~= fsv_empty_tree(old(self)@, pdv));
            }
            Ok(())
        }
    }

    /// Bind-mount the directory `src` onto the directory `tgt`: until the
    /// matching unmount, writes under `tgt` land under `src`.
    pub fn bind_mount(&mut self, src: &Vec<String>, tgt: &Vec<String>) -> (r: Result<
        (),
        BuildError,
    >)
        ensures
            r.is_ok() <==> (old(self)@.dirs.contains(src.deep_view()) && old(self)@.dirs.contains(
                tgt.deep_view(),
            )),
            r.is_ok() ==> final(self)@.mounts == old(self)@.mounts.push(
                (tgt.deep_view(), src.deep_view()),
            ) && final(self)@.dirs == old(self)@.dirs && final(self)@.files == old(self)@.files,
            r.is_err() ==> final(self)@ == old(self)@ && r == Err::<(), BuildError>(
                BuildError::MountFailed,
            ),
    {
        if !self.dir_exists(src) || !self.dir_exists(tgt) {
            return Err(BuildError::MountFailed);
        }
        let e = (path_clone(tgt), path_clone(src));
        let ghost prev = self.mounts.deep_view();
        self.mounts.push(e);
        proof {
            assert(self.mounts.deep_view() =~~= prev.push((tgt.deep_view(), src.deep_view())));
        }
        Ok(())
    }

    /// Tear down the most recent bind mount whose target is `tgt`.
    #[verifier::loop_isolation(false)]
    pub fn unmount(&mut self, tgt: &Vec<String>) -> (r: Result<(), BuildError>)
        ensures
            r.is_ok() <==> last_mount_index(old(self)@.mounts, tgt.deep_view()) >= 0,
            r.is_ok() ==> final(self)@.mounts == old(self)@.mounts.remove(
                last_mount_index(old(self)@.mounts, tgt.deep_view()),
            ) && final(self)@.dirs == old(self)@.dirs && final(self)@.files == old(self)@.files,
            r.is_err() ==> final(self)@ == old(self)@ && r == Err::<(), BuildError>(
                BuildError::UnmountFailed,
            ),
    {
        let ghost tdv = tgt.deep_view();
        let mut i: usize = self.mounts.len();
        proof {
            assert(self@.mounts.take(self.mounts.len() as int) =~= self@.mounts);
        }
        while i > 0
            invariant
                i <= self.mounts.len(),
                self@ == old(self)@,
                last_mount_index(self@.mounts, tdv) == last_mount_index(
                    self@.mounts.take(i as int),
                    tdv,
                ),
            decreases i,
        {
            let j = i - 1;
            if path_eq(&self.mounts[j].0, tgt) {
                proof {
                    assert(self@.mounts.take(j + 1).last() == self@.mounts[j as int]);
                    assert(self.mounts.deep_view()[j as int].0 == tdv);
                    assert(last_mount_index(self@.mounts.take(j + 1), tdv) == j);
                }
                let ghost prev = self.mounts.deep_view();
                let _removed = self.mounts.remove(j);
                proof {
                    assert(self.mounts.deep_view() =~~= prev.remove(j as int));
                }
                return Ok(());
            }
            proof {
                assert(self@.mounts.take(i as int).drop_last() =~= self@.mounts.take(j as int));
                assert(self@.mounts.take(i as int).last() == self@.mounts[j as int]);
                assert(self.mounts.deep_view()[j as int].0 != tdv);
            }
            i = j;
        }
        proof {
            assert(last_mount_index(self@.mounts.take(0), tdv) == -1);
        }
        Err(BuildError::UnmountFailed)
    }

    /// The path a write at `p` lands on under the current mount table.
    #[verifier::loop_isolation(false)]
    pub fn resolve_path(&self, p: &Vec<String>) -> (r: Vec<String>)
        ensures
            r.deep_view() == resolve(self@.mounts, p.deep_view()),
    {
        let ghost pdv = p.deep_view();
        let mut i: usize = self.mounts.len();
        proof {
            assert(self@.mounts.take(self.mounts.len() as int) =~= self@.mounts);
        }
        while i > 0
            invariant
                i <= self.mounts.len(),
                resolve(self@.mounts, pdv) == resolve(self@.mounts.take(i as int), pdv),
            decreases i,
        {
            let j = i - 1;
            if path_starts_with(p, &self.mounts[j].0) {
                let rest = path_skip(p, self.mounts[j].0.len());
                let r = path_join(&self.mounts[j].1, &rest);
                proof {
                    assert(self@.mounts.take(j + 1).last() == self@.mounts[j as int]);
                    assert(is_prefix_of(self@.mounts[j as int].0, pdv));
                    assert(r.deep_view() =~= resolve(self@.mounts.take(j + 1), pdv));
                }
                return r;
            }
            proof {
                assert(self@.mounts.take(i as int).drop_last() =~= self@.mounts.take(j as int));
                assert(self@.mounts.take(i as int).last() == self@.mounts[j as int]);
            }
            i = j;
        }
        path_clone(p)
    }

    /// Write `data` at `p`.  The write goes through the mount table: it
    /// lands on the resolved path, whose ancestors become directories.
    pub fn write_file(&mut self, p: &Vec<String>, data: Vec<u8>)
        ensures
            final(self)@ == fsv_write(old(self)@, p.deep_view(), data@),
    {
        let rp = self.resolve_path(p);
        let parent = if rp.len() > 0 {
            path_take(&rp, rp.len() - 1)
        } else {
            path_clone(&rp)
        };
        proof {
            assert(parent.deep_view() =~= parent_of(rp.deep_view()));
        }
        self.push_all_prefixes(&parent);
        let ghost k = rp.deep_view();
        let ghost prev = self.files.deep_view();
        self.files.push((rp, data));
        proof {
            assert(self.files.deep_view() =~~= prev.push((k, data@)));
            lemma_files_map_push(prev, (k, data@));
            assert(self@ =~= fsv_write(old(self)@, p.deep_view(), data@));
        }
    }

    /// The contents of the file at `p`, where one exists.
    #[verifier::loop_isolation(false)]
    pub fn read_file(&self, p: &Vec<String>) -> (r: Option<Vec<u8>>)
        ensures
            r.is_some() <==> self@.files.contains_key(p.deep_view()),
            r matches Some(v) ==> v@ == self@.files[p.deep_view()],
    {
        proof {
            lemma_files_map_key(self.files.deep_view(), p.deep_view());
        }
        let mut i: usize = self.files.len();
        while i > 0
            invariant
                i <= self.files.len(),
                forall|j: int|
                    i <= j < self.files.len() ==> self.files.deep_view()[j].0 != p.deep_view(),
            decreases i,
        {
            let j = i - 1;
            if path_eq(&self.files[j].0, p) {
                proof {
                    assert(self.files.deep_view()[j as int].0 == p.deep_view());
                    lemma_files_map_value(self.files.deep_view(), j as int);
                }
                let out = clone_bytes(&self.files[j].1);
                proof {
                    assert(out@ =~= self.files.deep_view()[j as int].1);
                }
                return Some(out);
            }
            i = j;
        }
        None
    }
}

} // verus!
