use vagga_build::bld::{execute, run_steps, shell_argv, BuildCommand, BuildStep, StepOutcome};
use vagga_build::context::BuildContext;
use vagga_build::errors::BuildError;
use vagga_build::fs_model::FsModel;

fn p(parts: &[&str]) -> Vec<String> {
    parts.iter().map(|s| s.to_string()).collect()
}

fn root_ctx() -> BuildContext {
    BuildContext::new(p(&["vagga", "root"]))
}

#[test]
fn set_env_later_pair_wins() {
    let mut ctx = root_ctx();
    let mut fs = FsModel::new();
    let step = BuildStep::SetEnv(vec![
        ("A".to_string(), "1".to_string()),
        ("B".to_string(), "2".to_string()),
        ("A".to_string(), "3".to_string()),
    ]);
    let r = execute(&step, StepOutcome::Local, &mut ctx, &mut fs);
    assert!(r.is_ok());
    assert_eq!(ctx.env_get(&"A".to_string()), Some(&"3".to_string()));
    assert_eq!(ctx.env_get(&"B".to_string()), Some(&"2".to_string()));
    assert_eq!(ctx.env_get(&"C".to_string()), None);
}

#[test]
fn set_env_merges_into_existing() {
    let mut ctx = root_ctx();
    let mut fs = FsModel::new();
    let first = BuildStep::SetEnv(vec![("PATH".to_string(), "/bin".to_string())]);
    let second = BuildStep::SetEnv(vec![("HOME".to_string(), "/root".to_string())]);
    assert!(execute(&first, StepOutcome::Local, &mut ctx, &mut fs).is_ok());
    assert!(execute(&second, StepOutcome::Local, &mut ctx, &mut fs).is_ok());
    assert_eq!(ctx.env_get(&"PATH".to_string()), Some(&"/bin".to_string()));
    assert_eq!(ctx.env_get(&"HOME".to_string()), Some(&"/root".to_string()));
}

#[test]
fn ensure_dir_creates_and_records() {
    let mut ctx = root_ctx();
    let mut fs = FsModel::new();
    let step = BuildStep::EnsureDir(p(&["usr", "share"]));
    let r = execute(&step, StepOutcome::Local, &mut ctx, &mut fs);
    assert!(r.is_ok());
    assert!(fs.dir_exists(&p(&["vagga", "root", "usr", "share"])));
    assert!(fs.dir_exists(&p(&["vagga", "root", "usr"])));
    assert_eq!(ctx.ensure_dirs(), &vec![p(&["usr", "share"])]);
}

#[test]
fn ensure_dir_twice_is_idempotent() {
    let mut ctx = root_ctx();
    let mut fs = FsModel::new();
    let step = BuildStep::EnsureDir(p(&["etc"]));
    assert!(execute(&step, StepOutcome::Local, &mut ctx, &mut fs).is_ok());
    let step_again = BuildStep::EnsureDir(p(&["etc"]));
    let r = execute(&step_again, StepOutcome::Local, &mut ctx, &mut fs);
    assert!(r.is_ok());
    assert!(fs.dir_exists(&p(&["vagga", "root", "etc"])));
    assert_eq!(ctx.ensure_dirs(), &vec![p(&["etc"]), p(&["etc"])]);
}

#[test]
fn ensure_dir_blocked_by_file() {
    let mut ctx = root_ctx();
    let mut fs = FsModel::new();
    fs.write_file(&p(&["vagga", "root", "etc"]), b"occupied".to_vec());
    let step = BuildStep::EnsureDir(p(&["etc", "sub"]));
    let r = execute(&step, StepOutcome::Local, &mut ctx, &mut fs);
    assert!(matches!(r, Err(BuildError::FilesystemError)));
    assert_eq!(ctx.ensure_dirs().len(), 0);
}

#[test]
fn empty_dir_clears_contents_keeps_dir() {
    let mut ctx = root_ctx();
    let mut fs = FsModel::new();
    fs.write_file(&p(&["work", "old.txt"]), b"stale".to_vec());
    fs.write_file(&p(&["work", "sub", "deep.txt"]), b"stale".to_vec());
    let step = BuildStep::EmptyDir(p(&["work"]));
    let r = execute(&step, StepOutcome::Local, &mut ctx, &mut fs);
    assert!(r.is_ok());
    assert!(fs.dir_exists(&p(&["work"])));
    assert!(!fs.file_exists(&p(&["work", "old.txt"])));
    assert!(!fs.file_exists(&p(&["work", "sub", "deep.txt"])));
    assert!(!fs.dir_exists(&p(&["work", "sub"])));
    assert_eq!(ctx.empty_dirs(), &vec![p(&["work"])]);
}

#[test]
fn empty_dir_creates_missing_dir() {
    let mut ctx = root_ctx();
    let mut fs = FsModel::new();
    let step = BuildStep::EmptyDir(p(&["fresh"]));
    let r = execute(&step, StepOutcome::Local, &mut ctx, &mut fs);
    assert!(r.is_ok());
    assert!(fs.dir_exists(&p(&["fresh"])));
}

#[test]
fn remove_dir_removes_everything_under_it() {
    let mut ctx = root_ctx();
    let mut fs = FsModel::new();
    fs.write_file(&p(&["junk", "a.txt"]), b"x".to_vec());
    fs.write_file(&p(&["junk", "b", "c.txt"]), b"y".to_vec());
    let step = BuildStep::RemoveDir(p(&["junk"]));
    let r = execute(&step, StepOutcome::Local, &mut ctx, &mut fs);
    assert!(r.is_ok());
    assert!(!fs.dir_exists(&p(&["junk"])));
    assert!(!fs.file_exists(&p(&["junk", "a.txt"])));
    assert!(!fs.file_exists(&p(&["junk", "b", "c.txt"])));
    assert_eq!(ctx.remove_dirs(), &vec![p(&["junk"])]);
}

#[test]
fn remove_dir_on_absent_path_is_ok() {
    let mut ctx = root_ctx();
    let mut fs = FsModel::new();
    let step = BuildStep::RemoveDir(p(&["nowhere"]));
    let r = execute(&step, StepOutcome::Local, &mut ctx, &mut fs);
    assert!(r.is_ok());
    assert_eq!(ctx.remove_dirs(), &vec![p(&["nowhere"])]);
}

#[test]
fn depends_on_has_no_effect() {
    let mut ctx = root_ctx();
    let mut fs = FsModel::new();
    let step = BuildStep::DependsOn(p(&["src", "main.c"]));
    let r = execute(&step, StepOutcome::Local, &mut ctx, &mut fs);
    assert!(r.is_ok());
    assert_eq!(ctx.remove_dirs().len(), 0);
    assert_eq!(ctx.empty_dirs().len(), 0);
    assert_eq!(ctx.ensure_dirs().len(), 0);
}

#[test]
fn base_distribution_propagates_fetch_result() {
    let mut ctx = root_ctx();
    let mut fs = FsModel::new();
    let step = BuildStep::BaseDistribution("trusty".to_string());
    let ok = execute(&step, StepOutcome::Fetched(Ok(())), &mut ctx, &mut fs);
    assert!(ok.is_ok());
    let err = execute(
        &step,
        StepOutcome::Fetched(Err("mirror down".to_string())),
        &mut ctx,
        &mut fs,
    );
    assert!(matches!(err, Err(BuildError::FetchFailed(m)) if m == "mirror down"));
}

#[test]
fn shell_command_propagates_runner_result() {
    let mut ctx = root_ctx();
    let mut fs = FsModel::new();
    let step = BuildStep::ShellCommand("make install".to_string());
    let ok = execute(&step, StepOutcome::Ran(Ok(())), &mut ctx, &mut fs);
    assert!(ok.is_ok());
    let err = execute(
        &step,
        StepOutcome::Ran(Err("exit status 2".to_string())),
        &mut ctx,
        &mut fs,
    );
    assert!(matches!(err, Err(BuildError::CommandFailed(m)) if m == "exit status 2"));
}

#[test]
fn empty_argv_is_rejected() {
    let mut ctx = root_ctx();
    let mut fs = FsModel::new();
    let step = BuildStep::ArgvCommand(Vec::new());
    let r = execute(&step, StepOutcome::Ran(Ok(())), &mut ctx, &mut fs);
    assert!(matches!(r, Err(BuildError::EmptyCommand)));
}

#[test]
fn argv_command_runs_when_non_empty() {
    let mut ctx = root_ctx();
    let mut fs = FsModel::new();
    let step = BuildStep::ArgvCommand(p(&["/bin/true"]));
    let r = execute(&step, StepOutcome::Ran(Ok(())), &mut ctx, &mut fs);
    assert!(r.is_ok());
}

#[test]
fn shell_argv_wraps_text() {
    let argv = shell_argv(&"echo hi".to_string());
    assert_eq!(argv, p(&["/bin/sh", "-c", "echo hi"]));
}

#[test]
fn build_trait_dispatches_like_execute() {
    let mut ctx = root_ctx();
    let mut fs = FsModel::new();
    let step = BuildStep::EnsureDir(p(&["opt"]));
    let r = step.build(StepOutcome::Local, &mut ctx, &mut fs);
    assert!(r.is_ok());
    assert!(fs.dir_exists(&p(&["vagga", "root", "opt"])));
}

#[test]
fn step_list_short_circuits_on_first_failure() {
    let mut ctx = root_ctx();
    let mut fs = FsModel::new();
    let steps = vec![
        BuildStep::EnsureDir(p(&["first"])),
        BuildStep::ArgvCommand(Vec::new()),
        BuildStep::EnsureDir(p(&["third"])),
    ];
    let outcomes = vec![
        StepOutcome::Local,
        StepOutcome::Ran(Ok(())),
        StepOutcome::Local,
    ];
    let r = run_steps(&steps, outcomes, &mut ctx, &mut fs);
    assert!(matches!(r, Err((1, BuildError::EmptyCommand))));
    assert!(fs.dir_exists(&p(&["vagga", "root", "first"])));
    assert!(!fs.dir_exists(&p(&["vagga", "root", "third"])));
    assert_eq!(ctx.ensure_dirs(), &vec![p(&["first"])]);
}

#[test]
fn step_list_runs_all_when_all_succeed() {
    let mut ctx = root_ctx();
    let mut fs = FsModel::new();
    let steps = vec![
        BuildStep::EnsureDir(p(&["a"])),
        BuildStep::SetEnv(vec![("K".to_string(), "v".to_string())]),
        BuildStep::EnsureDir(p(&["b"])),
    ];
    let outcomes = vec![StepOutcome::Local, StepOutcome::Local, StepOutcome::Local];
    let r = run_steps(&steps, outcomes, &mut ctx, &mut fs);
    assert!(r.is_ok());
    assert!(fs.dir_exists(&p(&["vagga", "root", "a"])));
    assert!(fs.dir_exists(&p(&["vagga", "root", "b"])));
    assert_eq!(ctx.env_get(&"K".to_string()), Some(&"v".to_string()));
}
