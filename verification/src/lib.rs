//! Core package model of a rootless, per-user binary package manager:
//! parsers for the two on-disk metadata formats, package validation, the
//! `Pkg` aggregate with its derived views, and the `PkgList` registry with
//! conflict-checked install and remove.

pub mod buildinfo;
pub mod error;
pub mod manifest;
pub mod paths;
pub mod pkg;
pub mod pkginfo;
pub mod registry;
pub mod text;

pub use buildinfo::BuildInfo;
pub use buildinfo::BuildInfoView;
pub use error::AetherError;
pub use error::ErrView;
pub use manifest::MTree;
pub use pkg::Pkg;
pub use pkg::PkgDir;
pub use pkg::PkgDirView;
pub use pkg::PkgView;
pub use paths::bin_dir;
pub use paths::cache_dir;
pub use paths::config_dir;
pub use paths::pkg_dir;
pub use pkginfo::PkgInfo;
pub use pkginfo::PkgInfoView;
pub use registry::PkgList;
pub use registry::RemovePlan;
pub use registry::RemovePlanView;
