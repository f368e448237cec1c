//! The typed form of one configuration document and of the effective
//! configuration, with the mathematical models that the contracts speak of.
use vstd::prelude::*;

use crate::keymap::{KeyMap, Modeled};
use crate::text::{lower_of, lowercase, str_eq};

verus! {

/// A field whose text is not one of the values it accepts.
#[derive(Debug, Clone, PartialEq, Eq)]
pub struct ParseError {
    /// The name of the offending field.
    pub field: String,
    /// The text that was rejected.
    pub value: String,
}

/// One configuration document.
#[derive(Debug, Clone, PartialEq, Eq)]
pub struct ProjectConfig {
    /// Steers which other documents are loaded; not part of the effective
    /// configuration.
    pub header: Header,
    /// The bitbake-based build system, if restricted.
    pub build_system: Option<BuildSystem>,
    /// The `MACHINE` written into `local.conf`.
    pub machine: Option<String>,
    /// The `DISTRO` written into `local.conf`.
    pub distro: Option<String>,
    /// The targets to build.
    pub target: Vec<String>,
    /// Variables passed through to the build, with an optional default value.
    pub env: KeyMap<Option<String>>,
    /// The bitbake task to run.
    pub task: Option<String>,
    /// Repositories by id; an entry without body is a repository whose root is
    /// its only layer.
    pub repos: KeyMap<Option<Repo>>,
}

#[derive(Debug, Clone, PartialEq, Eq)]
pub struct Header {
    /// Format compatibility marker.
    pub version: String,
    /// Documents to load before this one, in merge order.
    pub includes: Vec<HeaderInclude>,
}

#[derive(Debug, Clone, PartialEq, Eq)]
pub struct HeaderInclude {
    /// The repository that holds the file; empty for the including
    /// document's own repository.
    pub repo: String,
    /// The file, relative to the repository's root.
    pub file: String,
}

#[derive(Debug, Clone, Copy, PartialEq, Eq, Structural)]
pub enum BuildSystem {
    OpenEmbedded,
    Isar,
}

#[derive(Debug, Clone, PartialEq, Eq)]
pub struct Repo {
    /// Defaults to the repository's id.
    pub name: Option<String>,
    /// Without a url the repository is taken as already present at `path`.
    pub url: Option<String>,
    pub vcs: Option<RepoVcs>,
    pub commit: Option<String>,
    pub branch: Option<String>,
    pub refspec: Option<String>,
    /// Relative paths are resolved against the work directory.
    pub path: Option<String>,
    /// Layer paths relative to the repository root, with an optional marker
    /// that can disable the layer.
    pub layers: KeyMap<Option<String>>,
    /// Patches by id, applied in ascending order of the id.
    pub patches: KeyMap<RepoPatch>,
}

#[derive(Debug, Clone, Copy, PartialEq, Eq, Structural)]
pub enum RepoVcs {
    Git,
    Hg,
}

#[derive(Debug, Clone, PartialEq, Eq)]
pub struct RepoPatch {
    /// The id of the repository that holds the patch.
    pub repo: String,
    /// The patch's path inside that repository.
    pub path: String,
}

pub struct PatchModel {
    pub repo: Seq<char>,
    pub path: Seq<char>,
}

pub struct RepoModel {
    pub name: Option<Seq<char>>,
    pub url: Option<Seq<char>>,
    pub vcs: Option<RepoVcs>,
    pub commit: Option<Seq<char>>,
    pub branch: Option<Seq<char>>,
    pub refspec: Option<Seq<char>>,
    pub path: Option<Seq<char>>,
    pub layers: Map<Seq<char>, Option<Seq<char>>>,
    pub patches: Map<Seq<char>, PatchModel>,
}

/// The configuration a document describes, without its header.
pub struct ConfigModel {
    pub build_system: Option<BuildSystem>,
    pub machine: Option<Seq<char>>,
    pub distro: Option<Seq<char>>,
    pub target: Seq<Seq<char>>,
    pub env: Map<Seq<char>, Option<Seq<char>>>,
    pub task: Option<Seq<char>>,
    pub repos: Map<Seq<char>, Option<RepoModel>>,
}

pub open spec fn text_of(o: Option<String>) -> Option<Seq<char>> {
    match o {
        Some(s) => Some(s@),
        None => None,
    }
}

pub fn copy_text(o: &Option<String>) -> (r: Option<String>)
    ensures
        text_of(r) == text_of(*o),
{
    match o {
        Some(s) => Some(s.clone()),
        None => None,
    }
}

impl Modeled for Option<String> {
    type M = Option<Seq<char>>;

    open spec fn inv(&self) -> bool {
        true
    }

    open spec fn model(&self) -> Option<Seq<char>> {
        text_of(*self)
    }

    fn duplicate(&self) -> (r: Self) {
        copy_text(self)
    }
}

impl Modeled for RepoPatch {
    type M = PatchModel;

    open spec fn inv(&self) -> bool {
        true
    }

    open spec fn model(&self) -> PatchModel {
        PatchModel { repo: self.repo@, path: self.path@ }
    }

    fn duplicate(&self) -> (r: Self) {
        RepoPatch { repo: self.repo.clone(), path: self.path.clone() }
    }
}

/// A copy of `m` with the same keys, in the same order, and the same models.
pub fn copy_map<T: Modeled>(m: &KeyMap<T>) -> (r: KeyMap<T>)
    requires
        m.wf(),
        m.all_inv(),
    ensures
        r.wf(),
        r.all_inv(),
        r.model() == m.model(),
{
    let mut r = KeyMap::new();
    r.overlay(m);
    assert(r.model() =~= m.model());
    r
}

impl Repo {
    pub open spec fn wf(&self) -> bool {
        &&& self.layers.wf()
        &&& self.layers.all_inv()
        &&& self.patches.wf()
        &&& self.patches.all_inv()
    }
}

impl Modeled for Repo {
    type M = RepoModel;

    open spec fn inv(&self) -> bool {
        self.wf()
    }

    open spec fn model(&self) -> RepoModel {
        RepoModel {
            name: text_of(self.name),
            url: text_of(self.url),
            vcs: self.vcs,
            commit: text_of(self.commit),
            branch: text_of(self.branch),
            refspec: text_of(self.refspec),
            path: text_of(self.path),
            layers: self.layers.model(),
            patches: self.patches.model(),
        }
    }

    fn duplicate(&self) -> (r: Self) {
        Repo {
            name: copy_text(&self.name),
            url: copy_text(&self.url),
            vcs: self.vcs,
            commit: copy_text(&self.commit),
            branch: copy_text(&self.branch),
            refspec: copy_text(&self.refspec),
            path: copy_text(&self.path),
            layers: copy_map(&self.layers),
            patches: copy_map(&self.patches),
        }
    }
}

impl Modeled for Option<Repo> {
    type M = Option<RepoModel>;

    open spec fn inv(&self) -> bool {
        match self {
            Some(r) => r.wf(),
            None => true,
        }
    }

    open spec fn model(&self) -> Option<RepoModel> {
        match self {
            Some(r) => Some(r.model()),
            None => None,
        }
    }

    fn duplicate(&self) -> (r: Self) {
        match self {
            Some(x) => Some(x.duplicate()),
            None => None,
        }
    }
}

impl ProjectConfig {
    pub open spec fn wf(&self) -> bool {
        &&& self.env.wf()
        &&& self.repos.wf()
        &&& self.repos.all_inv()
    }

    pub open spec fn model(&self) -> ConfigModel {
        ConfigModel {
            build_system: self.build_system,
            machine: text_of(self.machine),
            distro: text_of(self.distro),
            target: crate::text::views_of(self.target@),
            env: self.env.model(),
            task: text_of(self.task),
            repos: self.repos.model(),
        }
    }

    /// A document with the given header and nothing else.
    pub fn new(header: Header) -> (r: ProjectConfig)
        ensures
            r.wf(),
            r.header == header,
            r.build_system.is_none(),
            r.machine.is_none(),
            r.distro.is_none(),
            r.target@.len() == 0,
            r.env@ == Map::<Seq<char>, Option<String>>::empty(),
            r.task.is_none(),
            r.repos@ == Map::<Seq<char>, Option<Repo>>::empty(),
    {
        ProjectConfig {
            header,
            build_system: None,
            machine: None,
            distro: None,
            target: Vec::new(),
            env: KeyMap::new(),
            task: None,
            repos: KeyMap::new(),
        }
    }
}

impl Header {
    /// A header with the given version and no includes.
    pub fn new(version: String) -> (r: Header)
        ensures
            r.version == version,
            r.includes@.len() == 0,
    {
        Header { version, includes: Vec::new() }
    }
}

impl HeaderInclude {
    /// An entry that reads `file` from the listing document's own repository.
    pub fn local(file: &str) -> (r: HeaderInclude)
        ensures
            r.repo@.len() == 0,
            r.file@ == file@,
    {
        HeaderInclude { repo: String::new(), file: file.to_owned() }
    }
}

impl std::str::FromStr for HeaderInclude {
    type Err = std::convert::Infallible;

    fn from_str(value: &str) -> (r: Result<Self, Self::Err>)
        ensures
            r matches Ok(h) && h.repo@.len() == 0 && h.file@ == value@,
    {
        Ok(HeaderInclude::local(value))
    }
}

impl Repo {
    /// A repository entry with no field set.
    pub fn new() -> (r: Repo)
        ensures
            r.wf(),
            r.name.is_none() && r.url.is_none() && r.vcs.is_none() && r.commit.is_none(),
            r.branch.is_none() && r.refspec.is_none() && r.path.is_none(),
            r.layers@ == Map::<Seq<char>, Option<String>>::empty(),
            r.patches@ == Map::<Seq<char>, RepoPatch>::empty(),
    {
        Repo {
            name: None,
            url: None,
            vcs: None,
            commit: None,
            branch: None,
            refspec: None,
            path: None,
            layers: KeyMap::new(),
            patches: KeyMap::new(),
        }
    }
}

/// The build system a lowercase name stands for.
pub open spec fn build_system_named(s: Seq<char>) -> Option<BuildSystem> {
    if s == "openembedded"@ || s == "oe"@ {
        Some(BuildSystem::OpenEmbedded)
    } else if s == "isar"@ {
        Some(BuildSystem::Isar)
    } else {
        None
    }
}

/// The name a build system is written with.
pub open spec fn build_system_name(b: BuildSystem) -> Seq<char> {
    match b {
        BuildSystem::OpenEmbedded => "openembedded"@,
        BuildSystem::Isar => "isar"@,
    }
}

/// The version control system a lowercase name stands for.
pub open spec fn vcs_named(s: Seq<char>) -> Option<RepoVcs> {
    if s == "git"@ {
        Some(RepoVcs::Git)
    } else if s == "hg"@ {
        Some(RepoVcs::Hg)
    } else {
        None
    }
}

pub open spec fn vcs_name(v: RepoVcs) -> Seq<char> {
    match v {
        RepoVcs::Git => "git"@,
        RepoVcs::Hg => "hg"@,
    }
}

impl BuildSystem {
    /// Reads an already lowercased name.
    pub fn from_lowered(s: &str) -> (r: Result<BuildSystem, ParseError>)
        ensures
            match r {
                Ok(b) => build_system_named(s@) == Some(b),
                Err(e) => build_system_named(s@).is_none() && e.field@ == "build_system"@
                    && e.value@ == s@,
            },
    {
        proof {
            reveal_strlit("openembedded");
            reveal_strlit("oe");
            reveal_strlit("isar");
            reveal_strlit("build_system");
        }
        if str_eq(s, "openembedded") || str_eq(s, "oe") {
            Ok(BuildSystem::OpenEmbedded)
        } else if str_eq(s, "isar") {
            Ok(BuildSystem::Isar)
        } else {
            Err(ParseError { field: "build_system".to_owned(), value: s.to_owned() })
        }
    }

    /// Reads a name in any letter case.
    pub fn parse(s: &str) -> (r: Result<BuildSystem, ParseError>)
        ensures
            match r {
                Ok(b) => build_system_named(lower_of(s@)) == Some(b),
                Err(e) => build_system_named(lower_of(s@)).is_none() && e.field@ == "build_system"@
                    && e.value@ == lower_of(s@),
            },
    {
        let lowered = lowercase(s);
        BuildSystem::from_lowered(lowered.as_str())
    }

    /// The name the build system is written with.
    pub fn name(&self) -> (r: &'static str)
        ensures
            r@ == build_system_name(*self),
    {
        match self {
            BuildSystem::OpenEmbedded => "openembedded",
            BuildSystem::Isar => "isar",
        }
    }
}

impl RepoVcs {
    /// Reads an already lowercased name.
    pub fn from_lowered(s: &str) -> (r: Result<RepoVcs, ParseError>)
        ensures
            match r {
                Ok(v) => vcs_named(s@) == Some(v),
                Err(e) => vcs_named(s@).is_none() && e.field@ == "vcs"@ && e.value@ == s@,
            },
    {
        proof {
            reveal_strlit("git");
            reveal_strlit("hg");
            reveal_strlit("vcs");
        }
        if str_eq(s, "git") {
            Ok(RepoVcs::Git)
        } else if str_eq(s, "hg") {
            Ok(RepoVcs::Hg)
        } else {
            Err(ParseError { field: "vcs".to_owned(), value: s.to_owned() })
        }
    }

    /// Reads a name in any letter case.
    pub fn parse(s: &str) -> (r: Result<RepoVcs, ParseError>)
        ensures
            match r {
                Ok(v) => vcs_named(lower_of(s@)) == Some(v),
                Err(e) => vcs_named(lower_of(s@)).is_none() && e.field@ == "vcs"@ && e.value@
                    == lower_of(s@),
            },
    {
        let lowered = lowercase(s);
        RepoVcs::from_lowered(lowered.as_str())
    }

    /// The name the version control system is written with.
    pub fn name(&self) -> (r: &'static str)
        ensures
            r@ == vcs_name(*self),
    {
        match self {
            RepoVcs::Git => "git",
            RepoVcs::Hg => "hg",
        }
    }
}

/// Writing a build system's name and reading it back gives the same build
/// system.
pub proof fn lemma_build_system_name_round_trip(b: BuildSystem)
    ensures
        build_system_named(build_system_name(b)) == Some(b),
{
    reveal_strlit("openembedded");
    reveal_strlit("oe");
    reveal_strlit("isar");
    assert("isar"@.len() != "openembedded"@.len());
    assert("isar"@.len() != "oe"@.len());
}

/// Writing a version control system's name and reading it back gives the
/// same system.
pub proof fn lemma_vcs_name_round_trip(v: RepoVcs)
    ensures
        vcs_named(vcs_name(v)) == Some(v),
{
    reveal_strlit("git");
    reveal_strlit("hg");
    assert("git"@.len() != "hg"@.len());
}

} // verus!
