//! Verified core of a container-image build engine: a declarative list of
//! build steps is executed, in order and failing fast, against a mutable
//! build context and a modelled root filesystem with bind mounts.  The
//! archive-materialization step extracts a chosen subdirectory of a
//! downloaded archive straight into its destination through a scratch
//! bind mount that is provably torn down on every path.

pub mod archive;
pub mod bld;
pub mod config;
pub mod context;
pub mod errors;
pub mod fs_model;
pub mod laws;
pub mod paths;
