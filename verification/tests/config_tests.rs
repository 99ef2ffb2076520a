use vagga_build::config::{
    find_config, find_config_path, normalize_config, normalize_container, Config, Container,
    MainCommand, Range,
};
use vagga_build::errors::ConfigError;
use vagga_build::fs_model::FsModel;

fn p(parts: &[&str]) -> Vec<String> {
    parts.iter().map(|s| s.to_string()).collect()
}

fn bare_container() -> Container {
    Container { setup: Vec::new(), uids: Vec::new(), gids: Vec::new() }
}

#[test]
fn range_keeps_its_bounds() {
    let r = Range::new(1000, 2000);
    assert_eq!(r.low, 1000);
    assert_eq!(r.high, 2000);
}

#[test]
fn empty_ranges_get_the_default() {
    let mut c = bare_container();
    normalize_container(&mut c);
    assert_eq!(c.uids.len(), 1);
    assert_eq!(c.uids[0].low, 0);
    assert_eq!(c.uids[0].high, 65535);
    assert_eq!(c.gids.len(), 1);
    assert_eq!(c.gids[0].low, 0);
    assert_eq!(c.gids[0].high, 65535);
}

#[test]
fn declared_ranges_are_unchanged() {
    let mut c = bare_container();
    c.uids.push(Range::new(1000, 1999));
    normalize_container(&mut c);
    assert_eq!(c.uids.len(), 1);
    assert_eq!(c.uids[0].low, 1000);
    assert_eq!(c.uids[0].high, 1999);
    assert_eq!(c.gids.len(), 1);
    assert_eq!(c.gids[0].low, 0);
    assert_eq!(c.gids[0].high, 65535);
}

#[test]
fn normalize_config_touches_every_container() {
    let cfg = Config {
        commands: vec![(
            "run".to_string(),
            MainCommand { container: "base".to_string(), run: p(&["/bin/sh"]) },
        )],
        containers: vec![
            ("base".to_string(), bare_container()),
            ("other".to_string(), {
                let mut c = bare_container();
                c.gids.push(Range::new(1, 2));
                c
            }),
        ],
    };
    let loaded = normalize_config(cfg);
    assert_eq!(loaded.commands.len(), 1);
    assert_eq!(loaded.containers.len(), 2);
    assert_eq!(loaded.containers[0].1.uids.len(), 1);
    assert_eq!(loaded.containers[0].1.uids[0].high, 65535);
    assert_eq!(loaded.containers[1].1.gids.len(), 1);
    assert_eq!(loaded.containers[1].1.gids[0].low, 1);
    assert_eq!(loaded.containers[1].1.gids[0].high, 2);
}

#[test]
fn nearest_directory_wins_and_dotted_beats_plain() {
    let mut fs = FsModel::new();
    fs.write_file(&p(&["a", "b", ".vagga", "vagga.yaml"]), b"containers: {}".to_vec());
    fs.write_file(&p(&["a", "vagga.yaml"]), b"containers: {}".to_vec());
    let found = find_config_path(&fs, &p(&["a", "b", "c"]));
    let (dir, file) = found.expect("a configuration should be found");
    assert_eq!(dir, p(&["a", "b"]));
    assert_eq!(file, p(&["a", "b", ".vagga", "vagga.yaml"]));
}

#[test]
fn plain_file_found_when_no_dotted_one() {
    let mut fs = FsModel::new();
    fs.write_file(&p(&["a", "vagga.yaml"]), b"containers: {}".to_vec());
    let found = find_config_path(&fs, &p(&["a", "b", "c"]));
    let (dir, file) = found.expect("a configuration should be found");
    assert_eq!(dir, p(&["a"]));
    assert_eq!(file, p(&["a", "vagga.yaml"]));
}

#[test]
fn config_found_in_working_directory_itself() {
    let mut fs = FsModel::new();
    fs.write_file(&p(&["a", "b", "vagga.yaml"]), b"containers: {}".to_vec());
    let found = find_config_path(&fs, &p(&["a", "b"]));
    let (dir, _file) = found.expect("a configuration should be found");
    assert_eq!(dir, p(&["a", "b"]));
}

#[test]
fn missing_config_is_config_not_found() {
    let fs = FsModel::new();
    let r = find_config(&fs, &p(&["a", "b"]), Err("unused".to_string()));
    assert!(matches!(r, Err(ConfigError::ConfigNotFound)));
}

#[test]
fn parse_failure_is_config_parse_error() {
    let mut fs = FsModel::new();
    fs.write_file(&p(&["a", "vagga.yaml"]), b"{{oops".to_vec());
    let r = find_config(&fs, &p(&["a"]), Err("bad yaml".to_string()));
    assert!(matches!(r, Err(ConfigError::ConfigParseError(m)) if m == "bad yaml"));
}

#[test]
fn found_config_comes_back_normalized() {
    let mut fs = FsModel::new();
    fs.write_file(&p(&["proj", ".vagga", "vagga.yaml"]), b"containers: {}".to_vec());
    let cfg = Config {
        commands: Vec::new(),
        containers: vec![("base".to_string(), bare_container())],
    };
    let r = find_config(&fs, &p(&["proj", "deep"]), Ok(cfg));
    let (loaded, dir) = r.expect("the configuration should load");
    assert_eq!(dir, p(&["proj"]));
    assert_eq!(loaded.containers[0].1.uids.len(), 1);
    assert_eq!(loaded.containers[0].1.uids[0].low, 0);
    assert_eq!(loaded.containers[0].1.uids[0].high, 65535);
}

#[test]
fn dotted_file_wins_within_one_directory() {
    let mut fs = FsModel::new();
    fs.write_file(&p(&["proj", ".vagga", "vagga.yaml"]), b"containers: {}".to_vec());
    fs.write_file(&p(&["proj", "vagga.yaml"]), b"containers: {}".to_vec());
    let found = find_config_path(&fs, &p(&["proj"]));
    let (dir, file) = found.expect("a configuration should be found");
    assert_eq!(dir, p(&["proj"]));
    assert_eq!(file, p(&["proj", ".vagga", "vagga.yaml"]));
}
