//! Host-boundary rules of the wild linker, verified: the source scanner behind the
//! `ban_host_cfg` lint, its path and baseline rules, and the decisions the filesystem layer
//! makes around opening and sizing output files.

pub mod fs;
pub mod host_os;
pub mod lexer;
pub mod lint;
pub mod paths;
pub mod scan;
pub mod text;
