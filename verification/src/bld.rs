use vstd::prelude::*;

use crate::archive::{Archive, archive_wf, fsv_unpack, lemma_unpack_mounts, unpack_archive};
use crate::context::{BuildContext, CtxView};
use crate::errors::BuildError;
use crate::fs_model::{FsModel, FsView, ancestor_file_blocks, fsv_empty_tree, fsv_mkdir,
    fsv_remove_tree, last_mount_index, mkdir_blocked};
use crate::paths::{path_clone, path_join};

verus! {

/// One declarative build step, the unit of intent a configuration
/// declares for a container build.
pub enum BuildStep {
    /// Fetch a named base distribution snapshot into the root.
    BaseDistribution(String),
    /// Run a command line through a shell.
    ShellCommand(String),
    /// Run an argv directly, with no shell.
    ArgvCommand(Vec<String>),
    /// Merge key/value pairs into the environment; later pairs win.
    SetEnv(Vec<(String, String)>),
    /// Delete a path and its contents, and record the removal.
    RemoveDir(Vec<String>),
    /// Delete a path's contents, keep the path itself, and record it.
    EmptyDir(Vec<String>),
    /// Create a path (and its parents) under the root, and record it.
    EnsureDir(Vec<String>),
    /// Declare a build-order dependency; no effect inside this engine.
    DependsOn(Vec<String>),
    /// Download an archive and materialize a chosen subdirectory of it
    /// at a destination under the root.
    MaterializeArchive { url: String, dest: Vec<String>, subdir: Vec<String> },
}

/// What the outside collaborators reported for one step: the fetch or
/// command-runner result, or the download's result.  Steps that need no
/// collaborator take `Local`.
pub enum StepOutcome {
    Local,
    Fetched(Result<(), String>),
    Ran(Result<(), String>),
    Downloaded(Result<Archive, String>),
}

/// The outcome kind each step expects from its collaborators.
pub open spec fn outcome_matches(step: BuildStep, outcome: StepOutcome) -> bool {
    match step {
        BuildStep::BaseDistribution(_) => outcome is Fetched,
        BuildStep::ShellCommand(_) => outcome is Ran,
        BuildStep::ArgvCommand(_) => outcome is Ran,
        BuildStep::MaterializeArchive { .. } => outcome is Downloaded,
        _ => outcome is Local,
    }
}

/// The environment after merging `pairs` left to right; a later pair
/// with a duplicate key overwrites the earlier one.
pub open spec fn env_after(
    env: Map<Seq<char>, Seq<char>>,
    pairs: Seq<(Seq<char>, Seq<char>)>,
) -> Map<Seq<char>, Seq<char>>
    decreases pairs.len(),
{
    if pairs.len() == 0 {
        env
    } else {
        env_after(env, pairs.drop_last()).insert(pairs.last().0, pairs.last().1)
    }
}

/// The result and tree state of one archive materialization, given the
/// download's result: the whole archive is extracted at the destination
/// when no subdirectory is requested; otherwise only the subdirectory is
/// materialized there, through a scratch bind mount that is torn down
/// again on every path.
pub open spec fn materialize_post(
    root: Seq<Seq<char>>,
    dest: Seq<Seq<char>>,
    subdir: Seq<Seq<char>>,
    dl: Result<Archive, String>,
    f: FsView,
) -> (Result<(), BuildError>, FsView) {
    match dl {
        Result::Err(msg) => (Result::Err(BuildError::DownloadFailed(msg)), f),
        Result::Ok(archive) => {
            let fpath = root + dest;
            let entries = archive.entries.deep_view();
            if subdir.len() == 0 {
                if archive_wf(entries) {
                    (Result::Ok(()), fsv_unpack(f, fpath, entries, Seq::empty()))
                } else {
                    (Result::Err(BuildError::ExtractionFailed), f)
                }
            } else {
                let tmppath = root + seq!["tmp"@, archive.filename@];
                let tmpsub = tmppath + subdir;
                if mkdir_blocked(f, tmpsub) {
                    (Result::Err(BuildError::FilesystemError), f)
                } else {
                    let f1 = fsv_mkdir(f, tmpsub);
                    let dest_present = f1.dirs.contains(fpath) || f1.files.contains_key(fpath);
                    if !dest_present && mkdir_blocked(f1, fpath) {
                        (Result::Err(BuildError::FilesystemError), f1)
                    } else {
                        let f2 = if dest_present {
                            f1
                        } else {
                            fsv_mkdir(f1, fpath)
                        };
                        if !(f2.dirs.contains(fpath) && f2.dirs.contains(tmpsub)) {
                            (Result::Err(BuildError::MountFailed), f2)
                        } else if !archive_wf(entries) {
                            (Result::Err(BuildError::ExtractionFailed), f2)
                        } else {
                            let mounted = FsView {
                                mounts: f2.mounts.push((tmpsub, fpath)),
                                ..f2
                            };
                            let extracted = fsv_unpack(mounted, tmppath, entries, seq![subdir]);
                            (Result::Ok(()), FsView { mounts: f2.mounts, ..extracted })
                        }
                    }
                }
            }
        }
    }
}

/// The exact result and state transition of one build step, given the
/// collaborators' outcome for it.
pub open spec fn step_post(
    step: BuildStep,
    outcome: StepOutcome,
    c: CtxView,
    f: FsView,
) -> (Result<(), BuildError>, CtxView, FsView) {
    match step {
        BuildStep::BaseDistribution(_name) => {
            let r = match outcome {
                StepOutcome::Fetched(Result::Ok(())) => Result::Ok(()),
                StepOutcome::Fetched(Result::Err(m)) => Result::Err(BuildError::FetchFailed(m)),
                _ => Result::Ok(()),
            };
            (r, c, f)
        },
        BuildStep::ShellCommand(_text) => {
            let r = match outcome {
                StepOutcome::Ran(Result::Ok(())) => Result::Ok(()),
                StepOutcome::Ran(Result::Err(m)) => Result::Err(BuildError::CommandFailed(m)),
                _ => Result::Ok(()),
            };
            (r, c, f)
        },
        BuildStep::ArgvCommand(cmd) => {
            if cmd@.len() == 0 {
                (Result::Err(BuildError::EmptyCommand), c, f)
            } else {
                let r = match outcome {
                    StepOutcome::Ran(Result::Ok(())) => Result::Ok(()),
                    StepOutcome::Ran(Result::Err(m)) => Result::Err(BuildError::CommandFailed(m)),
                    _ => Result::Ok(()),
                };
                (r, c, f)
            }
        },
        BuildStep::SetEnv(pairs) => (
            Result::Ok(()),
            CtxView { environ: env_after(c.environ, pairs.deep_view()), ..c },
            f,
        ),
        BuildStep::RemoveDir(p) => (
            Result::Ok(()),
            CtxView { remove_dirs: c.remove_dirs.push(p.deep_view()), ..c },
            fsv_remove_tree(f, p.deep_view()),
        ),
        BuildStep::EmptyDir(p) => {
            if ancestor_file_blocks(f, p.deep_view()) {
                (Result::Err(BuildError::FilesystemError), c, f)
            } else {
                (
                    Result::Ok(()),
                    CtxView { empty_dirs: c.empty_dirs.push(p.deep_view()), ..c },
                    fsv_empty_tree(f, p.deep_view()),
                )
            }
        },
        BuildStep::EnsureDir(p) => {
            let fpath = c.root + p.deep_view();
            if mkdir_blocked(f, fpath) {
                (Result::Err(BuildError::FilesystemError), c, f)
            } else {
                (
                    Result::Ok(()),
                    CtxView { ensure_dirs: c.ensure_dirs.push(p.deep_view()), ..c },
                    fsv_mkdir(f, fpath),
                )
            }
        },
        BuildStep::DependsOn(_p) => (Result::Ok(()), c, f),
        BuildStep::MaterializeArchive { url: _url, dest, subdir } => {
            match outcome {
                StepOutcome::Downloaded(dl) => {
                    let t = materialize_post(c.root, dest.deep_view(), subdir.deep_view(), dl, f);
                    (t.0, c, t.1)
                },
                _ => (Result::Ok(()), c, f),
            }
        },
    }
}

/// The argv the shell-command step hands to the command runner.
pub fn shell_argv(text: &String) -> (r: Vec<String>)
    ensures
        r.deep_view() =~= seq!["/bin/sh"@, "-c"@, text@],
{
    let mut r: Vec<String> = Vec::new();
    r.push("/bin/sh".to_owned());
    r.push("-c".to_owned());
    r.push(text.clone());
    r
}

/// The archive materializer.  With no subdirectory requested the archive
/// is extracted at the destination as it is.  Otherwise a scratch tree
/// under the root's temporary area is prepared, the destination is
/// bind-mounted onto the scratch subdirectory, extraction is restricted
/// to that subdirectory, and the mount is torn down whatever extraction
/// did, so the files land at the destination and no mount survives.
pub fn materialize(
    ctx: &BuildContext,
    fs: &mut FsModel,
    dest: &Vec<String>,
    subdir: &Vec<String>,
    dl: Result<Archive, String>,
) -> (r: Result<(), BuildError>)
    ensures
        r == materialize_post(ctx@.root, dest.deep_view(), subdir.deep_view(), dl, old(fs)@).0,
        final(fs)@ == materialize_post(
            ctx@.root,
            dest.deep_view(),
            subdir.deep_view(),
            dl,
            old(fs)@,
        ).1,
        final(fs)@.mounts == old(fs)@.mounts,
{
    let archive = match dl {
        Result::Ok(a) => a,
        Result::Err(msg) => {
            return Err(BuildError::DownloadFailed(msg));
        },
    };
    proof {
        assert(dl == Result::<Archive, String>::Ok(archive));
    }
    let fpath = ctx.rooted(dest);
    if subdir.len() == 0 {
        let includes: Vec<Vec<String>> = Vec::new();
        let r = unpack_archive(fs, &archive, &fpath, &includes);
        proof {
            assert(includes.deep_view() =~= Seq::<Seq<Seq<char>>>::empty());
            if r is Ok {
                lemma_unpack_mounts(
                    old(fs)@,
                    fpath.deep_view(),
                    archive.entries.deep_view(),
                    includes.deep_view(),
                );
            }
            let t = materialize_post(
                ctx@.root,
                dest.deep_view(),
                subdir.deep_view(),
                dl,
                old(fs)@,
            );
            if r is Ok {
                assert(t.0 is Ok);
                assert(r->Ok_0 == ());
                assert(t.0->Ok_0 == ());
                assert(r == Result::<(), BuildError>::Ok(()));
                assert(t.0 == Result::<(), BuildError>::Ok(()));
                assert(r == t.0);
            } else {
                assert(r->Err_0 == BuildError::ExtractionFailed);
                assert(t.0 == Result::<(), BuildError>::Err(BuildError::ExtractionFailed));
                assert(r == t.0);
            }
        }
        return r;
    }
    let mut tail: Vec<String> = Vec::new();
    tail.push("tmp".to_owned());
    tail.push(archive.filename.clone());
    proof {
        assert(tail.deep_view() =~= seq!["tmp"@, archive.filename@]);
    }
    let tmppath = ctx.rooted(&tail);
    let tmpsub = path_join(&tmppath, subdir);
    let ghost tmpsub_dv = tmppath.deep_view() + subdir.deep_view();
    match fs.mkdir_rec(&tmpsub) {
        Ok(()) => {},
        Err(e) => {
            return Err(e);
        },
    }
    let dest_present = fs.dir_exists(&fpath) || fs.file_exists(&fpath);
    if !dest_present {
        match fs.mkdir_rec(&fpath) {
            Ok(()) => {},
            Err(e) => {
                return Err(e);
            },
        }
    }
    match fs.bind_mount(&fpath, &tmpsub) {
        Ok(()) => {},
        Err(e) => {
            return Err(e);
        },
    }
    let ghost before_unpack = fs@;
    let mut includes: Vec<Vec<String>> = Vec::new();
    includes.push(path_clone(subdir));
    proof {
        assert(includes.deep_view() =~~= seq![subdir.deep_view()]);
    }
    let res = unpack_archive(fs, &archive, &tmppath, &includes);
    proof {
        if res is Ok {
            lemma_unpack_mounts(
                before_unpack,
                tmppath.deep_view(),
                archive.entries.deep_view(),
                includes.deep_view(),
            );
        }
        assert(fs@.mounts == before_unpack.mounts);
        assert(fs@.mounts.last() == (tmpsub_dv, fpath.deep_view()));
        assert(last_mount_index(fs@.mounts, tmpsub_dv) == fs@.mounts.len() - 1);
    }
    let um = fs.unmount(&tmpsub);
    proof {
        assert(um is Ok);
        assert(fs@.mounts =~= before_unpack.mounts.drop_last());
    }
    match um {
        Ok(()) => {},
        Err(e) => {
            proof {
                assert(false);
            }
            return Err(e);
        },
    }
    proof {
        let f0 = old(fs)@;
        let root = ctx@.root;
        let fpath_s = root + dest.deep_view();
        let tmppath_s = root + seq!["tmp"@, archive.filename@];
        let tmpsub_s = tmppath_s + subdir.deep_view();
        assert(fpath.deep_view() == fpath_s);
        assert(tmppath.deep_view() == tmppath_s);
        assert(tmpsub.deep_view() == tmpsub_s);
        let f1 = fsv_mkdir(f0, tmpsub_s);
        let dest_present_s = f1.dirs.contains(fpath_s) || f1.files.contains_key(fpath_s);
        let f2 = if dest_present_s {
            f1
        } else {
            fsv_mkdir(f1, fpath_s)
        };
        let mounted = FsView { mounts: f2.mounts.push((tmpsub_s, fpath_s)), ..f2 };
        assert(before_unpack =~= mounted);
        let entries = archive.entries.deep_view();
        let extracted = fsv_unpack(mounted, tmppath_s, entries, seq![subdir.deep_view()]);
        let t = materialize_post(ctx@.root, dest.deep_view(), subdir.deep_view(), dl, old(fs)@);
        if res is Ok {
            assert(fs@ =~= (FsView { mounts: f2.mounts, ..extracted }));
            assert(t.0 is Ok);
            assert(res->Ok_0 == ());
            assert(t.0->Ok_0 == ());
            assert(res == Result::<(), BuildError>::Ok(()));
            assert(t.0 == Result::<(), BuildError>::Ok(()));
            assert(res == t.0);
            assert(fs@ =~= t.1);
        } else {
            assert(fs@ =~= f2);
            assert(res->Err_0 == BuildError::ExtractionFailed);
            assert(t.0 == Result::<(), BuildError>::Err(BuildError::ExtractionFailed));
            assert(res == t.0);
            assert(fs@ =~= t.1);
        }
    }
    res
}

/// Execute one build step against the context and the modelled tree,
/// given its collaborators' outcome.  The result and the new state are
/// exactly `step_post`; whatever the step and its outcome, the mount
/// table is left as it was found.
#[verifier::loop_isolation(false)]
pub fn execute(
    step: &BuildStep,
    outcome: StepOutcome,
    ctx: &mut BuildContext,
    fs: &mut FsModel,
) -> (r: Result<(), BuildError>)
    requires
        outcome_matches(*step, outcome),
    ensures
        r == step_post(*step, outcome, old(ctx)@, old(fs)@).0,
        final(ctx)@ == step_post(*step, outcome, old(ctx)@, old(fs)@).1,
        final(fs)@ == step_post(*step, outcome, old(ctx)@, old(fs)@).2,
        final(fs)@.mounts == old(fs)@.mounts,
{
    match step {
        BuildStep::BaseDistribution(_name) => {
            match outcome {
                StepOutcome::Fetched(res) => match res {
                    Ok(()) => Ok(()),
                    Err(m) => Err(BuildError::FetchFailed(m)),
                },
                _ => Ok(()),
            }
        },
        BuildStep::ShellCommand(_text) => {
            match outcome {
                StepOutcome::Ran(res) => match res {
                    Ok(()) => Ok(()),
                    Err(m) => Err(BuildError::CommandFailed(m)),
                },
                _ => Ok(()),
            }
        },
        BuildStep::ArgvCommand(cmd) => {
            if cmd.len() == 0 {
                Err(BuildError::EmptyCommand)
            } else {
                match outcome {
                    StepOutcome::Ran(res) => match res {
                        Ok(()) => Ok(()),
                        Err(m) => Err(BuildError::CommandFailed(m)),
                    },
                    _ => Ok(()),
                }
            }
        },
        BuildStep::SetEnv(pairs) => {
            let ghost pairs_dv = pairs.deep_view();
            let mut i: usize = 0;
            while i < pairs.len()
                invariant
                    i <= pairs.len(),
                    ctx@ == (CtxView {
                        environ: env_after(old(ctx)@.environ, pairs_dv.take(i as int)),
                        ..old(ctx)@
                    }),
                    fs@ == old(fs)@,
                decreases pairs.len() - i,
            {
                ctx.set_env(pairs[i].0.clone(), pairs[i].1.clone());
                proof {
                    assert(pairs_dv.take(i + 1).drop_last() =~= pairs_dv.take(i as int));
                    assert(pairs_dv.take(i + 1).last() == pairs_dv[i as int]);
                    assert(ctx@ =~= (CtxView {
                        environ: env_after(old(ctx)@.environ, pairs_dv.take(i + 1)),
                        ..old(ctx)@
                    }));
                }
                i = i + 1;
            }
            proof {
                assert(pairs_dv.take(pairs.len() as int) =~= pairs_dv);
            }
            Ok(())
        },
        BuildStep::RemoveDir(p) => {
            match fs.clean_dir(p, true) {
                Ok(()) => {},
                Err(_e) => {
                    proof {
                        assert(false);
                    }
                },
            }
            ctx.add_remove_dir(path_clone(p));
            proof {
                assert(ctx@ =~= step_post(*step, outcome, old(ctx)@, old(fs)@).1);
            }
            Ok(())
        },
        BuildStep::EmptyDir(p) => {
            match fs.clean_dir(p, false) {
                Ok(()) => {
                    ctx.add_empty_dir(path_clone(p));
                    proof {
                        assert(ctx@ =~= step_post(*step, outcome, old(ctx)@, old(fs)@).1);
                    }
                    Ok(())
                },
                Err(e) => Err(e),
            }
        },
        BuildStep::EnsureDir(p) => {
            let fpath = ctx.rooted(p);
            match fs.mkdir_rec(&fpath) {
                Ok(()) => {
                    ctx.add_ensure_dir(path_clone(p));
                    proof {
                        assert(ctx@ =~= step_post(*step, outcome, old(ctx)@, old(fs)@).1);
                    }
                    Ok(())
                },
                Err(e) => Err(e),
            }
        },
        BuildStep::DependsOn(_p) => Ok(()),
        BuildStep::MaterializeArchive { url: _url, dest, subdir } => {
            match outcome {
                StepOutcome::Downloaded(dl) => materialize(ctx, fs, dest, subdir, dl),
                _ => Ok(()),
            }
        },
    }
}

/// The context and tree state after the first `n` steps, assuming each
/// of them succeeded.
pub open spec fn run_state(
    steps: Seq<BuildStep>,
    outcomes: Seq<StepOutcome>,
    c: CtxView,
    f: FsView,
    n: int,
) -> (CtxView, FsView)
    decreases n,
{
    if n <= 0 {
        (c, f)
    } else {
        let prev = run_state(steps, outcomes, c, f, n - 1);
        let t = step_post(steps[n - 1], outcomes[n - 1], prev.0, prev.1);
        (t.1, t.2)
    }
}

/// The first `n` steps all succeed.
pub open spec fn prefix_ok(
    steps: Seq<BuildStep>,
    outcomes: Seq<StepOutcome>,
    c: CtxView,
    f: FsView,
    n: int,
) -> bool
    decreases n,
{
    if n <= 0 {
        true
    } else {
        let prev = run_state(steps, outcomes, c, f, n - 1);
        prefix_ok(steps, outcomes, c, f, n - 1) && step_post(
            steps[n - 1],
            outcomes[n - 1],
            prev.0,
            prev.1,
        ).0 is Ok
    }
}

/// Inside a successful prefix, every individual step succeeded.
proof fn lemma_prefix_ok_step(
    steps: Seq<BuildStep>,
    outcomes: Seq<StepOutcome>,
    c: CtxView,
    f: FsView,
    n: int,
    j: int,
)
    requires
        prefix_ok(steps, outcomes, c, f, n),
        0 <= j < n,
    ensures
        ({
            let prev = run_state(steps, outcomes, c, f, j);
            step_post(steps[j], outcomes[j], prev.0, prev.1).0 is Ok
        }),
    decreases n,
{
    if j < n - 1 {
        lemma_prefix_ok_step(steps, outcomes, c, f, n - 1, j);
    }
}

/// Run a step list strictly in order, stopping at the first failure.  On
/// failure the index of the failing step and its error are reported, and
/// the state is exactly the state the failing step left: no later step
/// has any effect.
#[verifier::loop_isolation(false)]
pub fn run_steps(
    steps: &Vec<BuildStep>,
    outcomes: Vec<StepOutcome>,
    ctx: &mut BuildContext,
    fs: &mut FsModel,
) -> (r: Result<(), (usize, BuildError)>)
    requires
        outcomes@.len() == steps@.len(),
        forall|i: int| 0 <= i < steps@.len() ==> outcome_matches(steps@[i], #[trigger] outcomes@[i]),
    ensures
        r.is_ok() <==> prefix_ok(steps@, outcomes@, old(ctx)@, old(fs)@, steps@.len() as int),
        r.is_ok() ==> final(ctx)@ == run_state(
            steps@,
            outcomes@,
            old(ctx)@,
            old(fs)@,
            steps@.len() as int,
        ).0 && final(fs)@ == run_state(
            steps@,
            outcomes@,
            old(ctx)@,
            old(fs)@,
            steps@.len() as int,
        ).1,
        r matches Err((i, e)) ==> {
            let prev = run_state(steps@, outcomes@, old(ctx)@, old(fs)@, i as int);
            let t = step_post(steps@[i as int], outcomes@[i as int], prev.0, prev.1);
            &&& (i as int) < steps@.len()
            &&& prefix_ok(steps@, outcomes@, old(ctx)@, old(fs)@, i as int)
            &&& t.0 == Result::<(), BuildError>::Err(e)
            &&& final(ctx)@ == t.1
            &&& final(fs)@ == t.2
        },
        final(fs)@.mounts == old(fs)@.mounts,
{
    let ghost all_outcomes = outcomes@;
    let mut rest = outcomes;
    let mut i: usize = 0;
    while i < steps.len()
        invariant
            i <= steps.len(),
            rest@ =~= all_outcomes.skip(i as int),
            prefix_ok(steps@, all_outcomes, old(ctx)@, old(fs)@, i as int),
            ctx@ == run_state(steps@, all_outcomes, old(ctx)@, old(fs)@, i as int).0,
            fs@ == run_state(steps@, all_outcomes, old(ctx)@, old(fs)@, i as int).1,
            fs@.mounts == old(fs)@.mounts,
        decreases steps.len() - i,
    {
        let oc = rest.remove(0);
        proof {
            assert(oc == all_outcomes[i as int]);
            assert(rest@ =~= all_outcomes.skip(i as int + 1));
            assert(outcome_matches(steps@[i as int], oc));
        }
        let r = execute(&steps[i], oc, ctx, fs);
        match r {
            Ok(()) => {
                proof {
                    assert(prefix_ok(steps@, all_outcomes, old(ctx)@, old(fs)@, i as int + 1));
                }
                i = i + 1;
            },
            Err(e) => {
                proof {
                    if prefix_ok(steps@, all_outcomes, old(ctx)@, old(fs)@, steps@.len() as int) {
                        lemma_prefix_ok_step(
                            steps@,
                            all_outcomes,
                            old(ctx)@,
                            old(fs)@,
                            steps@.len() as int,
                            i as int,
                        );
                    }
                }
                return Err((i, e));
            },
        }
    }
    Ok(())
}

/// The step-dispatch interface: a build step executes against the build
/// context and the modelled tree, given its collaborators' outcome.
pub trait BuildCommand {
    /// The outcome kind the step expects.
    spec fn build_pre(&self, outcome: StepOutcome) -> bool;

    /// The exact result and state transition of the step.
    spec fn build_post(&self, outcome: StepOutcome, c: CtxView, f: FsView) -> (
        Result<(), BuildError>,
        CtxView,
        FsView,
    );

    /// Execute the step.
    fn build(&self, outcome: StepOutcome, ctx: &mut BuildContext, fs: &mut FsModel) -> (r: Result<
        (),
        BuildError,
    >)
        requires
            self.build_pre(outcome),
        ensures
            r == self.build_post(outcome, old(ctx)@, old(fs)@).0,
            final(ctx)@ == self.build_post(outcome, old(ctx)@, old(fs)@).1,
            final(fs)@ == self.build_post(outcome, old(ctx)@, old(fs)@).2,
    ;
}

impl BuildCommand for BuildStep {
    open spec fn build_pre(&self, outcome: StepOutcome) -> bool {
        outcome_matches(*self, outcome)
    }

    open spec fn build_post(&self, outcome: StepOutcome, c: CtxView, f: FsView) -> (
        Result<(), BuildError>,
        CtxView,
        FsView,
    ) {
        step_post(*self, outcome, c, f)
    }

    fn build(&self, outcome: StepOutcome, ctx: &mut BuildContext, fs: &mut FsModel) -> (r: Result<
        (),
        BuildError,
    >) {
        execute(self, outcome, ctx, fs)
    }
}

} // verus!
