use vstd::prelude::*;

use crate::archive::{Archive, fsv_unpack, entry_included, lemma_unpack_mounts, EntryView};
use crate::bld::{BuildStep, StepOutcome, env_after, materialize_post, step_post};
use crate::context::CtxView;
use crate::config::{Range, default_range, normalized_ranges};
use crate::fs_model::{FsView, fsv_empty_tree, fsv_mkdir, fsv_remove_tree, mkdir_blocked,
    resolve};
use crate::paths::{at_or_under, is_prefix_of, prefixes_of, strictly_under};

verus! {

/// The index of the last pair naming `k`, or `-1`.
pub open spec fn last_pair_index(pairs: Seq<(Seq<char>, Seq<char>)>, k: Seq<char>) -> int
    decreases pairs.len(),
{
    if pairs.len() == 0 {
        -1
    } else if pairs.last().0 == k {
        pairs.len() - 1
    } else {
        last_pair_index(pairs.drop_last(), k)
    }
}

proof fn lemma_last_pair_index_bound(pairs: Seq<(Seq<char>, Seq<char>)>, k: Seq<char>)
    ensures
        -1 <= last_pair_index(pairs, k) < pairs.len(),
    decreases pairs.len(),
{
    if pairs.len() > 0 && pairs.last().0 != k {
        lemma_last_pair_index_bound(pairs.drop_last(), k);
    }
}

/// Applying a `SetEnv` pair list is the left-to-right overwrite fold:
/// for any key, the last pair naming it wins; a key that no pair names
/// keeps its prior binding.
pub proof fn lemma_env_fold_last_wins(
    env: Map<Seq<char>, Seq<char>>,
    pairs: Seq<(Seq<char>, Seq<char>)>,
    k: Seq<char>,
)
    ensures
        last_pair_index(pairs, k) >= 0 <==> exists|i: int| 0 <= i < pairs.len() && pairs[i].0
            == k,
        last_pair_index(pairs, k) >= 0 ==> env_after(env, pairs).contains_key(k) && env_after(
            env,
            pairs,
        )[k] == pairs[last_pair_index(pairs, k)].1,
        last_pair_index(pairs, k) < 0 ==> (env_after(env, pairs).contains_key(k)
            <==> env.contains_key(k)) && (env.contains_key(k) ==> env_after(env, pairs)[k]
            == env[k]),
    decreases pairs.len(),
{
    if pairs.len() > 0 {
        lemma_env_fold_last_wins(env, pairs.drop_last(), k);
        lemma_last_pair_index_bound(pairs.drop_last(), k);
        if pairs.last().0 != k && last_pair_index(pairs.drop_last(), k) >= 0 {
            let i = last_pair_index(pairs.drop_last(), k);
            assert(pairs.drop_last()[i] == pairs[i]);
        }
        if pairs.last().0 == k {
            assert(pairs[pairs.len() - 1].0 == k);
        } else if exists|i: int| 0 <= i < pairs.len() && pairs[i].0 == k {
            let i = choose|i: int| 0 <= i < pairs.len() && pairs[i].0 == k;
            assert(pairs.drop_last()[i].0 == k);
        }
    }
}

/// `EnsureDir` is idempotent: when a first run succeeds, a second run on
/// the same path succeeds too and leaves the tree exactly as the first
/// run left it; only the provisioning record grows by the same path.
pub proof fn lemma_ensure_dir_idempotent(p: Vec<String>, c: CtxView, f: FsView)
    ensures
        ({
            let s = BuildStep::EnsureDir(p);
            let t1 = step_post(s, StepOutcome::Local, c, f);
            t1.0 is Ok ==> {
                let t2 = step_post(s, StepOutcome::Local, t1.1, t1.2);
                &&& t2.0 is Ok
                &&& t2.2 == t1.2
                &&& t2.1.ensure_dirs == t1.1.ensure_dirs.push(p.deep_view())
            }
        }),
{
    let fpath = c.root + p.deep_view();
    let t1 = step_post(BuildStep::EnsureDir(p), StepOutcome::Local, c, f);
    if !mkdir_blocked(f, fpath) {
        let f1 = fsv_mkdir(f, fpath);
        assert(!mkdir_blocked(f1, fpath));
        assert(fsv_mkdir(f1, fpath) =~= f1);
    }
}

/// After a successful `EmptyDir`, the path exists, is a directory, and
/// holds no entry at all.
pub proof fn lemma_empty_dir_postcondition(f: FsView, p: Seq<Seq<char>>)
    ensures
        fsv_empty_tree(f, p).dirs.contains(p),
        !fsv_empty_tree(f, p).files.contains_key(p),
        forall|q: Seq<Seq<char>>|
            strictly_under(p, q) ==> !fsv_empty_tree(f, p).dirs.contains(q) && !fsv_empty_tree(
                f,
                p,
            ).files.contains_key(q),
{
    assert(prefixes_of(p).contains(p));
    assert forall|q: Seq<Seq<char>>| strictly_under(p, q) implies !fsv_empty_tree(
        f,
        p,
    ).dirs.contains(q) && !fsv_empty_tree(f, p).files.contains_key(q) by {
        assert(!is_prefix_of(q, p));
        assert(is_prefix_of(p, q));
    }
}

/// After `RemoveDir` the path is gone, with everything under it; the
/// step always succeeds, and on an already-absent path it is a no-op.
pub proof fn lemma_remove_dir_postcondition(p: Vec<String>, c: CtxView, f: FsView)
    ensures
        step_post(BuildStep::RemoveDir(p), StepOutcome::Local, c, f).0 is Ok,
        forall|q: Seq<Seq<char>>|
            at_or_under(p.deep_view(), q) ==> !fsv_remove_tree(f, p.deep_view()).dirs.contains(q)
                && !fsv_remove_tree(f, p.deep_view()).files.contains_key(q),
        (forall|q: Seq<Seq<char>>|
            at_or_under(p.deep_view(), q) ==> !f.dirs.contains(q) && !f.files.contains_key(q))
            ==> fsv_remove_tree(f, p.deep_view()) == f,
{
    let pdv = p.deep_view();
    if forall|q: Seq<Seq<char>>|
        at_or_under(pdv, q) ==> !f.dirs.contains(q) && !f.files.contains_key(q) {
        assert forall|q: Seq<Seq<char>>| #[trigger] f.dirs.contains(q) implies !at_or_under(
            pdv,
            q,
        ) by {
            if at_or_under(pdv, q) {
                assert(!f.dirs.contains(q));
            }
        }
        assert forall|q: Seq<Seq<char>>| #[trigger] f.files.contains_key(q) implies !at_or_under(
            pdv,
            q,
        ) by {
            if at_or_under(pdv, q) {
                assert(!f.files.contains_key(q));
            }
        }
        assert(fsv_remove_tree(f, pdv).dirs =~= f.dirs);
        assert(fsv_remove_tree(f, pdv).files =~= f.files);
        assert(fsv_remove_tree(f, pdv) =~= f);
    }
}

/// A container declaring no uid (or gid) ranges is loaded with exactly
/// one range, the full default; one declaring ranges is unchanged.
pub proof fn lemma_default_ranges(rs: Seq<Range>)
    ensures
        rs.len() == 0 ==> normalized_ranges(rs).len() == 1 && normalized_ranges(rs)[0]
            == default_range(),
        rs.len() > 0 ==> normalized_ranges(rs) == rs,
{
}

/// Resolution through the materializer's scratch mount: a write at
/// `dest / p`, with `p` under the requested subdirectory, lands at
/// `target / (p minus the subdirectory prefix)`.
proof fn lemma_resolve_top(
    mounts: Seq<(Seq<Seq<char>>, Seq<Seq<char>>)>,
    dest: Seq<Seq<char>>,
    subdir: Seq<Seq<char>>,
    target: Seq<Seq<char>>,
    p: Seq<Seq<char>>,
)
    requires
        mounts.len() > 0,
        mounts.last() == (dest + subdir, target),
        is_prefix_of(subdir, p),
    ensures
        resolve(mounts, dest + p) == target + p.skip(subdir.len() as int),
{
    assert forall|ii: int| 0 <= ii < (dest + subdir).len() implies (dest + subdir)[ii] == (dest
        + p)[ii] by {
        if ii >= dest.len() {
            assert(subdir[ii - dest.len()] == p[ii - dest.len()]);
        }
    }
    assert(is_prefix_of(dest + subdir, dest + p));
    assert((dest + p).skip((dest + subdir).len() as int) =~= p.skip(subdir.len() as int));
}

/// Lookup after a restricted unpack through the scratch mount: an entry
/// under the subdirectory, not shadowed by a later entry of the same
/// path, ends up at the mount's source, stripped of the prefix.
proof fn lemma_unpack_sub_lookup(
    f: FsView,
    dest: Seq<Seq<char>>,
    subdir: Seq<Seq<char>>,
    target: Seq<Seq<char>>,
    entries: Seq<EntryView>,
    i: int,
)
    requires
        f.mounts.len() > 0,
        f.mounts.last() == (dest + subdir, target),
        0 <= i < entries.len(),
        is_prefix_of(subdir, entries[i].path),
        forall|j: int| i < j < entries.len() ==> entries[j].path != entries[i].path,
    ensures
        fsv_unpack(f, dest, entries, seq![subdir]).files.contains_key(
            target + entries[i].path.skip(subdir.len() as int),
        ),
        fsv_unpack(f, dest, entries, seq![subdir]).files[target + entries[i].path.skip(
            subdir.len() as int,
        )] == entries[i].data,
    decreases entries.len(),
{
    let key_i = target + entries[i].path.skip(subdir.len() as int);
    let fprev = fsv_unpack(f, dest, entries.drop_last(), seq![subdir]);
    lemma_unpack_mounts(f, dest, entries.drop_last(), seq![subdir]);
    if i == entries.len() - 1 {
        assert(seq![subdir][0] == subdir);
        assert(entry_included(entries[i].path, seq![subdir]));
        lemma_resolve_top(fprev.mounts, dest, subdir, target, entries[i].path);
    } else {
        assert(entries.drop_last()[i] == entries[i]);
        lemma_unpack_sub_lookup(f, dest, subdir, target, entries.drop_last(), i);
        let e = entries.last();
        if entry_included(e.path, seq![subdir]) {
            let w = choose|w: int|
                0 <= w < seq![subdir].len() && is_prefix_of(seq![subdir][w], e.path);
            assert(seq![subdir][w] == subdir);
            assert(is_prefix_of(subdir, e.path));
            lemma_resolve_top(fprev.mounts, dest, subdir, target, e.path);
            let key_e = target + e.path.skip(subdir.len() as int);
            if key_e == key_i {
                assert(e.path.skip(subdir.len() as int) =~= key_e.skip(target.len() as int));
                assert(entries[i].path.skip(subdir.len() as int) =~= key_i.skip(
                    target.len() as int,
                ));
                assert(e.path =~= subdir + e.path.skip(subdir.len() as int));
                assert(entries[i].path =~= subdir + entries[i].path.skip(subdir.len() as int));
                assert(entries[entries.len() - 1].path == entries[i].path);
                assert(false);
            }
        }
    }
}

/// Subdirectory materialization places every archive entry under the
/// requested subdirectory at the destination, stripped of the prefix
/// and with its contents intact; entries outside the subdirectory cause
/// no failure.
pub proof fn lemma_materialize_places_entries(
    root: Seq<Seq<char>>,
    dest: Seq<Seq<char>>,
    subdir: Seq<Seq<char>>,
    archive: Archive,
    f: FsView,
    i: int,
)
    requires
        subdir.len() > 0,
        materialize_post(root, dest, subdir, Result::Ok(archive), f).0 is Ok,
        forall|j: int, k: int|
            0 <= j < k < archive.entries.deep_view().len()
                ==> archive.entries.deep_view()[j].path != archive.entries.deep_view()[k].path,
        0 <= i < archive.entries.deep_view().len(),
        is_prefix_of(subdir, archive.entries.deep_view()[i].path),
    ensures
        ({
            let ff = materialize_post(root, dest, subdir, Result::Ok(archive), f).1;
            let entry = archive.entries.deep_view()[i];
            &&& ff.files.contains_key(root + dest + entry.path.skip(subdir.len() as int))
            &&& ff.files[root + dest + entry.path.skip(subdir.len() as int)] == entry.data
        }),
{
    let fpath = root + dest;
    let entries = archive.entries.deep_view();
    let tmppath = root + seq!["tmp"@, archive.filename@];
    let tmpsub = tmppath + subdir;
    let f1 = fsv_mkdir(f, tmpsub);
    let dest_present = f1.dirs.contains(fpath) || f1.files.contains_key(fpath);
    let f2 = if dest_present {
        f1
    } else {
        fsv_mkdir(f1, fpath)
    };
    let mounted = FsView { mounts: f2.mounts.push((tmpsub, fpath)), ..f2 };
    let extracted = fsv_unpack(mounted, tmppath, entries, seq![subdir]);
    let t = materialize_post(root, dest, subdir, Result::Ok(archive), f);
    assert(t.1.files == extracted.files);
    assert(mounted.mounts.last() == (tmppath + subdir, fpath));
    lemma_unpack_sub_lookup(mounted, tmppath, subdir, fpath, entries, i);
}

/// Mount invariant: whatever the download reported and whatever
/// extraction did, the materializer leaves the mount table exactly as it
/// found it — the scratch bind mount never survives the procedure.
pub proof fn lemma_materialize_mount_invariant(
    root: Seq<Seq<char>>,
    dest: Seq<Seq<char>>,
    subdir: Seq<Seq<char>>,
    dl: Result<Archive, String>,
    f: FsView,
)
    ensures
        materialize_post(root, dest, subdir, dl, f).1.mounts == f.mounts,
{
    if dl is Ok {
        let archive = dl->Ok_0;
        let entries = archive.entries.deep_view();
        if subdir.len() == 0 {
            lemma_unpack_mounts(f, root + dest, entries, Seq::empty());
        }
    }
}

/// Every build step preserves the mount table: steps that mount always
/// unmount again before they return.
pub proof fn lemma_step_mount_invariant(
    step: BuildStep,
    outcome: StepOutcome,
    c: CtxView,
    f: FsView,
)
    ensures
        step_post(step, outcome, c, f).2.mounts == f.mounts,
{
    match step {
        BuildStep::MaterializeArchive { url: _url, dest, subdir } => {
            match outcome {
                StepOutcome::Downloaded(dl) => {
                    lemma_materialize_mount_invariant(
                        c.root,
                        dest.deep_view(),
                        subdir.deep_view(),
                        dl,
                        f,
                    );
                },
                _ => {},
            }
        },
        _ => {},
    }
}

} // verus!
