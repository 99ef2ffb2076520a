use vagga_build::archive::{Archive, ArchiveEntry};
use vagga_build::bld::{execute, BuildStep, StepOutcome};
use vagga_build::context::BuildContext;
use vagga_build::errors::BuildError;
use vagga_build::fs_model::FsModel;

fn p(parts: &[&str]) -> Vec<String> {
    parts.iter().map(|s| s.to_string()).collect()
}

fn entry(parts: &[&str], data: &[u8]) -> ArchiveEntry {
    ArchiveEntry { path: p(parts), data: data.to_vec() }
}

fn sample_archive() -> Archive {
    Archive {
        filename: "pkg.tar.gz".to_string(),
        entries: vec![
            entry(&["subdir", "a"], b"alpha"),
            entry(&["subdir", "b"], b"beta"),
            entry(&["other", "c"], b"gamma"),
        ],
    }
}

fn tar_step(dest: &[&str], subdir: &[&str]) -> BuildStep {
    BuildStep::MaterializeArchive {
        url: "http://example.com/pkg.tar.gz".to_string(),
        dest: p(dest),
        subdir: p(subdir),
    }
}

#[test]
fn subdir_entries_land_at_destination() {
    let mut ctx = BuildContext::new(p(&["vagga", "root"]));
    let mut fs = FsModel::new();
    let step = tar_step(&["usr", "lib", "pkg"], &["subdir"]);
    let outcome = StepOutcome::Downloaded(Ok(sample_archive()));
    let r = execute(&step, outcome, &mut ctx, &mut fs);
    assert!(r.is_ok());
    let a = fs.read_file(&p(&["vagga", "root", "usr", "lib", "pkg", "a"]));
    assert_eq!(a, Some(b"alpha".to_vec()));
    let b = fs.read_file(&p(&["vagga", "root", "usr", "lib", "pkg", "b"]));
    assert_eq!(b, Some(b"beta".to_vec()));
    assert!(!fs.file_exists(&p(&["vagga", "root", "usr", "lib", "pkg", "c"])));
}

#[test]
fn unmount_ran_after_successful_extraction() {
    let mut ctx = BuildContext::new(p(&["vagga", "root"]));
    let mut fs = FsModel::new();
    let step = tar_step(&["dest"], &["subdir"]);
    let outcome = StepOutcome::Downloaded(Ok(sample_archive()));
    let r = execute(&step, outcome, &mut ctx, &mut fs);
    assert!(r.is_ok());
    let scratch_subdir = p(&["vagga", "root", "tmp", "pkg.tar.gz", "subdir"]);
    assert!(!fs.is_mounted(&scratch_subdir));
}

#[test]
fn unmount_ran_after_failed_extraction() {
    let mut ctx = BuildContext::new(p(&["vagga", "root"]));
    let mut fs = FsModel::new();
    let malformed = Archive {
        filename: "bad.tar.gz".to_string(),
        entries: vec![entry(&["subdir", "a"], b"alpha"), entry(&[], b"nameless")],
    };
    let step = tar_step(&["dest"], &["subdir"]);
    let outcome = StepOutcome::Downloaded(Ok(malformed));
    let r = execute(&step, outcome, &mut ctx, &mut fs);
    assert!(matches!(r, Err(BuildError::ExtractionFailed)));
    let scratch_subdir = p(&["vagga", "root", "tmp", "bad.tar.gz", "subdir"]);
    assert!(!fs.is_mounted(&scratch_subdir));
    assert!(!fs.file_exists(&p(&["vagga", "root", "dest", "a"])));
}

#[test]
fn whole_archive_extracts_without_subdir() {
    let mut ctx = BuildContext::new(p(&["vagga", "root"]));
    let mut fs = FsModel::new();
    let step = tar_step(&["opt", "pkg"], &[]);
    let outcome = StepOutcome::Downloaded(Ok(sample_archive()));
    let r = execute(&step, outcome, &mut ctx, &mut fs);
    assert!(r.is_ok());
    let a = fs.read_file(&p(&["vagga", "root", "opt", "pkg", "subdir", "a"]));
    assert_eq!(a, Some(b"alpha".to_vec()));
    let c = fs.read_file(&p(&["vagga", "root", "opt", "pkg", "other", "c"]));
    assert_eq!(c, Some(b"gamma".to_vec()));
    assert!(!fs.is_mounted(&p(&["vagga", "root", "tmp", "pkg.tar.gz", "subdir"])));
}

#[test]
fn failed_download_is_reported() {
    let mut ctx = BuildContext::new(p(&["vagga", "root"]));
    let mut fs = FsModel::new();
    let step = tar_step(&["dest"], &["subdir"]);
    let outcome = StepOutcome::Downloaded(Err("connection refused".to_string()));
    let r = execute(&step, outcome, &mut ctx, &mut fs);
    assert!(matches!(r, Err(BuildError::DownloadFailed(m)) if m == "connection refused"));
    assert!(!fs.dir_exists(&p(&["vagga", "root", "dest"])));
}

#[test]
fn bind_mount_needs_both_directories() {
    let mut fs = FsModel::new();
    let r = fs.bind_mount(&p(&["missing", "src"]), &p(&["missing", "tgt"]));
    assert!(matches!(r, Err(BuildError::MountFailed)));
}

#[test]
fn unmount_without_mount_fails() {
    let mut fs = FsModel::new();
    let r = fs.unmount(&p(&["anywhere"]));
    assert!(matches!(r, Err(BuildError::UnmountFailed)));
}

#[test]
fn writes_under_mount_target_land_at_source() {
    let mut fs = FsModel::new();
    assert!(fs.mkdir_rec(&p(&["real"])).is_ok());
    assert!(fs.mkdir_rec(&p(&["scratch"])).is_ok());
    assert!(fs.bind_mount(&p(&["real"]), &p(&["scratch"])).is_ok());
    fs.write_file(&p(&["scratch", "f"]), b"data".to_vec());
    assert!(fs.unmount(&p(&["scratch"])).is_ok());
    assert_eq!(fs.read_file(&p(&["real", "f"])), Some(b"data".to_vec()));
    assert!(!fs.file_exists(&p(&["scratch", "f"])));
}
