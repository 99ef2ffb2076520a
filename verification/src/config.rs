use vstd::prelude::*;

use crate::bld::BuildStep;
use crate::errors::ConfigError;
use crate::fs_model::FsModel;
use crate::paths::path_clone;

verus! {

/// An inclusive numeric interval, used to restrict uid/gid mappings.
pub struct Range {
    pub low: u32,
    pub high: u32,
}

impl Range {
    /// A range is well formed when its bounds are ordered.
    pub open spec fn wf(&self) -> bool {
        self.low <= self.high
    }

    pub fn new(low: u32, high: u32) -> (r: Range)
        requires
            low <= high,
        ensures
            r.low == low,
            r.high == high,
            r.wf(),
    {
        Range { low, high }
    }
}

/// A command a user can invoke, bound to a container.
pub struct MainCommand {
    pub container: String,
    pub run: Vec<String>,
}

/// A container declaration: its build steps and its uid/gid ranges.
pub struct Container {
    pub setup: Vec<BuildStep>,
    pub uids: Vec<Range>,
    pub gids: Vec<Range>,
}

/// Loaded configuration: named commands and named containers, keys in
/// declaration order.
pub struct Config {
    pub commands: Vec<(String, MainCommand)>,
    pub containers: Vec<(String, Container)>,
}

/// The full id range injected when a container declares none.
pub open spec fn default_range() -> Range {
    Range { low: 0, high: 65535 }
}

/// The uid/gid normalization of one range list: an empty list becomes
/// the single default range, a non-empty list is unchanged.
pub open spec fn normalized_ranges(rs: Seq<Range>) -> Seq<Range> {
    if rs.len() == 0 {
        seq![default_range()]
    } else {
        rs
    }
}

/// Inject the default uid/gid ranges into a container that declares none.
pub fn normalize_container(c: &mut Container)
    ensures
        final(c).uids@ == normalized_ranges(old(c).uids@),
        final(c).gids@ == normalized_ranges(old(c).gids@),
        final(c).setup == old(c).setup,
{
    if c.uids.len() == 0 {
        c.uids.push(Range::new(0, 65535));
        proof {
            assert(c.uids@ =~= seq![default_range()]);
        }
    }
    if c.gids.len() == 0 {
        c.gids.push(Range::new(0, 65535));
        proof {
            assert(c.gids@ =~= seq![default_range()]);
        }
    }
}

/// Does the normalization relation hold between a parsed configuration
/// and a loaded one?
pub open spec fn config_normalized(parsed: Config, loaded: Config) -> bool {
    &&& loaded.commands == parsed.commands
    &&& loaded.containers@.len() == parsed.containers@.len()
    &&& forall|i: int|
        0 <= i < parsed.containers@.len() ==> {
            &&& (#[trigger] loaded.containers@[i]).0 == parsed.containers@[i].0
            &&& loaded.containers@[i].1.setup == parsed.containers@[i].1.setup
            &&& loaded.containers@[i].1.uids@ == normalized_ranges(parsed.containers@[i].1.uids@)
            &&& loaded.containers@[i].1.gids@ == normalized_ranges(parsed.containers@[i].1.gids@)
        }
}

/// Apply the uid/gid default-range normalization to every container of a
/// parsed configuration.
#[verifier::loop_isolation(false)]
pub fn normalize_config(cfg: Config) -> (r: Config)
    ensures
        config_normalized(cfg, r),
{
    let Config { commands, containers } = cfg;
    let ghost orig = containers@;
    let mut rest = containers;
    let mut out: Vec<(String, Container)> = Vec::new();
    while rest.len() > 0
        invariant
            out@.len() + rest@.len() == orig.len(),
            rest@ =~= orig.skip(out@.len() as int),
            forall|j: int|
                0 <= j < out@.len() ==> {
                    &&& (#[trigger] out@[j]).0 == orig[j].0
                    &&& out@[j].1.setup == orig[j].1.setup
                    &&& out@[j].1.uids@ == normalized_ranges(orig[j].1.uids@)
                    &&& out@[j].1.gids@ == normalized_ranges(orig[j].1.gids@)
                },
        decreases rest.len(),
    {
        let ghost n = out@.len() as int;
        let (name, mut c) = rest.remove(0);
        proof {
            assert(rest@ =~= orig.skip(n + 1));
        }
        normalize_container(&mut c);
        out.push((name, c));
    }
    Config { commands, containers: out }
}

/// The `.vagga/vagga.yaml` candidate inside one directory.
pub open spec fn dotted_candidate(d: Seq<Seq<char>>) -> Seq<Seq<char>> {
    d.push(".vagga"@).push("vagga.yaml"@)
}

/// The plain `vagga.yaml` candidate inside one directory.
pub open spec fn plain_candidate(d: Seq<Seq<char>>) -> Seq<Seq<char>> {
    d.push("vagga.yaml"@)
}

/// Configuration discovery: the nearest directory, walking from `d`
/// upwards, that holds a configuration file; within one directory the
/// dotted candidate wins over the plain one.  The result is that
/// directory and the file found in it.
pub open spec fn find_config_spec(
    files: Map<Seq<Seq<char>>, Seq<u8>>,
    d: Seq<Seq<char>>,
) -> Option<(Seq<Seq<char>>, Seq<Seq<char>>)>
    decreases d.len(),
{
    if files.contains_key(dotted_candidate(d)) {
        Some((d, dotted_candidate(d)))
    } else if files.contains_key(plain_candidate(d)) {
        Some((d, plain_candidate(d)))
    } else if d.len() == 0 {
        None
    } else {
        find_config_spec(files, d.take(d.len() - 1))
    }
}

/// Search the working directory and each ancestor in turn for a
/// configuration file, preferring `.vagga/vagga.yaml` over `vagga.yaml`
/// in the same directory.
#[verifier::loop_isolation(false)]
pub fn find_config_path(fs: &FsModel, work_dir: &Vec<String>) -> (r: Option<
    (Vec<String>, Vec<String>),
>)
    ensures
        r is Some <==> find_config_spec(fs@.files, work_dir.deep_view()) is Some,
        r matches Some(pair) ==> find_config_spec(fs@.files, work_dir.deep_view()) matches Some(sp)
            && pair.0.deep_view() == sp.0 && pair.1.deep_view() == sp.1,
{
    let mut dir = path_clone(work_dir);
    loop
        invariant
            find_config_spec(fs@.files, work_dir.deep_view()) == find_config_spec(
                fs@.files,
                dir.deep_view(),
            ),
        decreases dir.len(),
    {
        let mut cand = path_clone(&dir);
        cand.push(".vagga".to_owned());
        cand.push("vagga.yaml".to_owned());
        proof {
            assert(cand.deep_view() =~= dotted_candidate(dir.deep_view()));
        }
        if fs.file_exists(&cand) {
            return Some((dir, cand));
        }
        let mut cand = path_clone(&dir);
        cand.push("vagga.yaml".to_owned());
        proof {
            assert(cand.deep_view() =~= plain_candidate(dir.deep_view()));
        }
        if fs.file_exists(&cand) {
            return Some((dir, cand));
        }
        if dir.len() == 0 {
            return None;
        }
        let ghost before = dir.deep_view();
        dir.pop();
        proof {
            assert(dir.deep_view() =~= before.take(before.len() - 1));
        }
    }
}

/// Locate, load and normalize the configuration for a working directory.
/// The caller parses the file the discovery names and hands the parse
/// result in; a missing file is `ConfigNotFound`, a failed parse is
/// `ConfigParseError`, and a parsed configuration comes back normalized,
/// together with the directory it was found in.
pub fn find_config(fs: &FsModel, work_dir: &Vec<String>, parsed: Result<Config, String>) -> (r:
    Result<(Config, Vec<String>), ConfigError>)
    ensures
        find_config_spec(fs@.files, work_dir.deep_view()) is None ==> r == Err::<
            (Config, Vec<String>),
            ConfigError,
        >(ConfigError::ConfigNotFound),
        find_config_spec(fs@.files, work_dir.deep_view()) is Some ==> (parsed matches Result::Err(
            m,
        ) ==> r == Err::<(Config, Vec<String>), ConfigError>(ConfigError::ConfigParseError(m))),
        find_config_spec(fs@.files, work_dir.deep_view()) matches Some(sp) ==> (parsed matches
            Result::Ok(cfg) ==> (r matches Ok(pair) && config_normalized(cfg, pair.0)
            && pair.1.deep_view() == sp.0)),
{
    let found = find_config_path(fs, work_dir);
    match found {
        None => Err(ConfigError::ConfigNotFound),
        Some((cfg_dir, _filename)) => {
            match parsed {
                Result::Err(m) => Err(ConfigError::ConfigParseError(m)),
                Result::Ok(cfg) => Ok((normalize_config(cfg), cfg_dir)),
            }
        },
    }
}

} // verus!
