//! Resolution of layered, multi-file build descriptions into one effective
//! configuration and a build context.

pub mod context;
pub mod expand;
pub mod keymap;
pub mod merge;
pub mod paths;
pub mod project;
pub mod repos;
pub mod resolve;
pub mod text;

pub use context::{KasContext, KasContextBuilder, KasProjectConfig, PathError};
pub use expand::{resolve_order, Document, IncludeError, IncludeErrorKind};
pub use keymap::KeyMap;
pub use project::{
    BuildSystem, Header, HeaderInclude, ParseError, ProjectConfig, Repo, RepoPatch, RepoVcs,
};
pub use repos::{resolve_repos, ResolvedPatch, ResolvedRepo, UnknownPatchRepo};
pub use resolve::{merge_documents, resolve_config, EnvOverrides};
