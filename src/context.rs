//! The build context handed to the checkout and build executors, and the
//! builder that validates its paths.
use vstd::prelude::*;

use crate::keymap::KeyMap;
use crate::paths::{absolute, is_absolute, join, join_path};
use crate::project::ProjectConfig;

verus! {

/// A path that must be absolute and is not.
#[derive(Debug, Clone, PartialEq, Eq)]
pub struct PathError {
    pub path: String,
}

#[derive(Debug, Clone, PartialEq, Eq)]
pub struct KasContext {
    pub kas_work_dir: String,
    pub build_dir: String,
    pub kas_repo_ref_dir: Option<String>,
    pub force_checkout: Option<bool>,
    pub update: Option<bool>,
    /// Variables exported to the build executor.
    pub environment: KeyMap<String>,
}

#[derive(Debug, Clone, PartialEq, Eq)]
pub struct KasContextBuilder {
    kas_work_dir: String,
    build_dir: String,
    kas_repo_ref_dir: Option<String>,
    force_checkout: Option<bool>,
    update: Option<bool>,
    environment: KeyMap<String>,
}

impl KasContextBuilder {
    pub closed spec fn work_dir_spec(&self) -> Seq<char> {
        self.kas_work_dir@
    }

    pub closed spec fn build_dir_spec(&self) -> Seq<char> {
        self.build_dir@
    }

    pub closed spec fn repo_ref_dir_spec(&self) -> Option<Seq<char>> {
        crate::project::text_of(self.kas_repo_ref_dir)
    }

    pub closed spec fn force_checkout_spec(&self) -> Option<bool> {
        self.force_checkout
    }

    pub closed spec fn update_spec(&self) -> Option<bool> {
        self.update
    }

    pub closed spec fn environment_spec(&self) -> Map<Seq<char>, String> {
        self.environment@
    }

    pub closed spec fn wf(&self) -> bool {
        self.environment.wf()
    }

    /// A builder for work directory `work_dir`, which must be absolute; the
    /// build directory defaults to `build` inside it.
    pub fn new(work_dir: String) -> (r: Result<KasContextBuilder, PathError>)
        ensures
            r is Ok <==> is_absolute(work_dir@),
            r matches Ok(b) ==> b.wf() && b.work_dir_spec() == work_dir@ && b.build_dir_spec()
                == join_path(work_dir@, "build"@) && b.repo_ref_dir_spec().is_none()
                && b.force_checkout_spec().is_none() && b.update_spec().is_none()
                && b.environment_spec() == Map::<Seq<char>, String>::empty(),
            r matches Err(e) ==> e.path@ == work_dir@,
    {
        if !absolute(work_dir.as_str()) {
            return Err(PathError { path: work_dir });
        }
        proof {
            reveal_strlit("build");
        }
        let build_dir = join(work_dir.as_str(), "build");
        Ok(
            KasContextBuilder {
                kas_work_dir: work_dir,
                build_dir,
                kas_repo_ref_dir: None,
                force_checkout: None,
                update: None,
                environment: KeyMap::new(),
            },
        )
    }

    /// Sets the build directory, which must be absolute.
    pub fn with_build_dir(self, build_dir: String) -> (r: Result<KasContextBuilder, PathError>)
        requires
            self.wf(),
        ensures
            r is Ok <==> is_absolute(build_dir@),
            r matches Ok(b) ==> b.wf() && b.build_dir_spec() == build_dir@ && b.work_dir_spec()
                == self.work_dir_spec() && b.repo_ref_dir_spec() == self.repo_ref_dir_spec()
                && b.force_checkout_spec() == self.force_checkout_spec() && b.update_spec()
                == self.update_spec() && b.environment_spec() == self.environment_spec(),
            r matches Err(e) ==> e.path@ == build_dir@,
    {
        if !absolute(build_dir.as_str()) {
            return Err(PathError { path: build_dir });
        }
        let mut b = self;
        b.build_dir = build_dir;
        Ok(b)
    }

    /// Sets the directory of reference clones, which must be absolute.
    pub fn with_repo_ref_dir(self, repo_ref_dir: String) -> (r: Result<KasContextBuilder, PathError>)
        requires
            self.wf(),
        ensures
            r is Ok <==> is_absolute(repo_ref_dir@),
            r matches Ok(b) ==> b.wf() && b.repo_ref_dir_spec() == Some(repo_ref_dir@)
                && b.work_dir_spec() == self.work_dir_spec() && b.build_dir_spec()
                == self.build_dir_spec() && b.force_checkout_spec() == self.force_checkout_spec()
                && b.update_spec() == self.update_spec() && b.environment_spec()
                == self.environment_spec(),
            r matches Err(e) ==> e.path@ == repo_ref_dir@,
    {
        if !absolute(repo_ref_dir.as_str()) {
            return Err(PathError { path: repo_ref_dir });
        }
        let mut b = self;
        b.kas_repo_ref_dir = Some(repo_ref_dir);
        Ok(b)
    }

    pub fn force_checkout(self, force_checkout: bool) -> (r: KasContextBuilder)
        requires
            self.wf(),
        ensures
            r.wf(),
            r.force_checkout_spec() == Some(force_checkout),
            r.work_dir_spec() == self.work_dir_spec(),
            r.build_dir_spec() == self.build_dir_spec(),
            r.repo_ref_dir_spec() == self.repo_ref_dir_spec(),
            r.update_spec() == self.update_spec(),
            r.environment_spec() == self.environment_spec(),
    {
        let mut b = self;
        b.force_checkout = Some(force_checkout);
        b
    }

    pub fn update(self, update: bool) -> (r: KasContextBuilder)
        requires
            self.wf(),
        ensures
            r.wf(),
            r.update_spec() == Some(update),
            r.work_dir_spec() == self.work_dir_spec(),
            r.build_dir_spec() == self.build_dir_spec(),
            r.repo_ref_dir_spec() == self.repo_ref_dir_spec(),
            r.force_checkout_spec() == self.force_checkout_spec(),
            r.environment_spec() == self.environment_spec(),
    {
        let mut b = self;
        b.update = Some(update);
        b
    }

    /// Exports `key` with `value`, replacing an earlier value.
    pub fn env(self, key: String, value: String) -> (r: KasContextBuilder)
        requires
            self.wf(),
        ensures
            r.wf(),
            r.environment_spec() == self.environment_spec().insert(key@, value),
            r.work_dir_spec() == self.work_dir_spec(),
            r.build_dir_spec() == self.build_dir_spec(),
            r.repo_ref_dir_spec() == self.repo_ref_dir_spec(),
            r.force_checkout_spec() == self.force_checkout_spec(),
            r.update_spec() == self.update_spec(),
    {
        let mut b = self;
        b.environment.insert(key, value);
        b
    }

    pub fn build(self) -> (r: KasContext)
        requires
            self.wf(),
        ensures
            r.environment.wf(),
            r.kas_work_dir@ == self.work_dir_spec(),
            r.build_dir@ == self.build_dir_spec(),
            crate::project::text_of(r.kas_repo_ref_dir) == self.repo_ref_dir_spec(),
            r.force_checkout == self.force_checkout_spec(),
            r.update == self.update_spec(),
            r.environment@ == self.environment_spec(),
    {
        KasContext {
            kas_work_dir: self.kas_work_dir,
            build_dir: self.build_dir,
            kas_repo_ref_dir: self.kas_repo_ref_dir,
            force_checkout: self.force_checkout,
            update: self.update,
            environment: self.environment,
        }
    }
}

/// A configuration file to load, with the target and task given on the
/// command line.
#[derive(Debug, Clone, PartialEq, Eq)]
pub struct KasProjectConfig {
    pub config_path: String,
    pub target: Option<String>,
    pub task: Option<String>,
    pub update: bool,
    /// The configuration once loaded.
    pub inner: Option<ProjectConfig>,
}

impl KasProjectConfig {
    pub fn new(config_path: String, target: Option<String>, task: Option<String>, update: bool) -> (r:
        KasProjectConfig)
        ensures
            r.config_path == config_path,
            r.target == target,
            r.task == task,
            r.update == update,
            r.inner.is_none(),
    {
        KasProjectConfig { config_path, target, task, update, inner: None }
    }

    /// The loaded configuration, if any.
    pub fn get_config(&self) -> (r: Option<&ProjectConfig>)
        ensures
            match r {
                Some(c) => self.inner == Some(*c),
                None => self.inner.is_none(),
            },
    {
        self.inner.as_ref()
    }

    /// Records the loaded configuration.
    pub fn set_config(&mut self, config: ProjectConfig)
        ensures
            final(self).inner == Some(config),
            final(self).config_path == old(self).config_path,
            final(self).target == old(self).target,
            final(self).task == old(self).task,
            final(self).update == old(self).update,
    {
        self.inner = Some(config);
    }
}

} // verus!
