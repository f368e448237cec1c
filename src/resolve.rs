//! The whole resolution: expansion, merge, then the environment overrides.
use vstd::prelude::*;

use crate::expand::{expansion_of, ints, resolve_order, Document, IncludeError};
use crate::merge::{empty_model, merged_all};
use crate::project::{copy_text, text_of, ConfigModel, Header, ProjectConfig};
use crate::text::{split_words, words};

verus! {

/// Values taken from the invocation's environment; each one counts only
/// when present and not empty.
#[derive(Debug, Clone, PartialEq, Eq)]
pub struct EnvOverrides {
    pub machine: Option<String>,
    pub distro: Option<String>,
    /// Targets separated by spaces.
    pub target: Option<String>,
    pub task: Option<String>,
}

pub struct EnvModel {
    pub machine: Option<Seq<char>>,
    pub distro: Option<Seq<char>>,
    pub target: Option<Seq<char>>,
    pub task: Option<Seq<char>>,
}

impl EnvOverrides {
    pub open spec fn model(&self) -> EnvModel {
        EnvModel {
            machine: text_of(self.machine),
            distro: text_of(self.distro),
            target: text_of(self.target),
            task: text_of(self.task),
        }
    }

    /// No overrides.
    pub fn none() -> (r: EnvOverrides)
        ensures
            r.machine.is_none() && r.distro.is_none() && r.target.is_none() && r.task.is_none(),
    {
        EnvOverrides { machine: None, distro: None, target: None, task: None }
    }
}

/// Whether an environment value takes effect.
pub open spec fn is_set(v: Option<Seq<char>>) -> bool {
    v matches Some(s) && s.len() > 0
}

pub open spec fn override_with(base: Option<Seq<char>>, v: Option<Seq<char>>) -> Option<Seq<char>> {
    if is_set(v) {
        v
    } else {
        base
    }
}

/// The configuration after the environment overrides.
pub open spec fn overridden(m: ConfigModel, e: EnvModel) -> ConfigModel {
    ConfigModel {
        machine: override_with(m.machine, e.machine),
        distro: override_with(m.distro, e.distro),
        target: if is_set(e.target) {
            words(e.target->Some_0)
        } else {
            m.target
        },
        task: override_with(m.task, e.task),
        ..m
    }
}

fn override_text(base: &Option<String>, v: &Option<String>) -> (r: Option<String>)
    ensures
        text_of(r) == override_with(text_of(*base), text_of(*v)),
{
    match v {
        Some(s) => {
            if s.as_str().is_empty() {
                copy_text(base)
            } else {
                Some(s.clone())
            }
        },
        None => copy_text(base),
    }
}

impl ProjectConfig {
    /// Applies the environment overrides; a target list from the
    /// environment replaces the configured one.
    pub fn apply_env(&mut self, env: &EnvOverrides)
        requires
            old(self).wf(),
        ensures
            final(self).wf(),
            final(self).header == old(self).header,
            final(self).model() == overridden(old(self).model(), env.model()),
    {
        self.machine = override_text(&self.machine, &env.machine);
        self.distro = override_text(&self.distro, &env.distro);
        self.task = override_text(&self.task, &env.task);
        match &env.target {
            Some(t) => {
                if !t.as_str().is_empty() {
                    self.target = split_words(t.as_str());
                }
            },
            None => {},
        }
        assert(self.model() == overridden(old(self).model(), env.model()));
    }
}

/// The machine built when nothing sets one.
pub open spec fn default_machine() -> Seq<char> {
    "qemux86-64"@
}

/// The distro built when nothing sets one.
pub open spec fn default_distro() -> Seq<char> {
    "poky"@
}

/// The target built when nothing sets one.
pub open spec fn default_target() -> Seq<char> {
    "core-image-minimal"@
}

/// The task run when nothing sets one.
pub open spec fn default_task() -> Seq<char> {
    "build"@
}

pub open spec fn or_default(v: Option<Seq<char>>, d: Seq<char>) -> Option<Seq<char>> {
    if v is Some {
        v
    } else {
        Some(d)
    }
}

/// The configuration with the compiled-in default in each of machine,
/// distro, target and task that is still unset.
pub open spec fn with_defaults(m: ConfigModel) -> ConfigModel {
    ConfigModel {
        machine: or_default(m.machine, default_machine()),
        distro: or_default(m.distro, default_distro()),
        target: if m.target.len() == 0 {
            seq![default_target()]
        } else {
            m.target
        },
        task: or_default(m.task, default_task()),
        ..m
    }
}

fn text_or(v: &Option<String>, d: &str) -> (r: Option<String>)
    ensures
        text_of(r) == or_default(text_of(*v), d@),
{
    match v {
        Some(s) => Some(s.clone()),
        None => Some(d.to_owned()),
    }
}

impl ProjectConfig {
    /// Fills machine, distro, target and task with their compiled-in
    /// defaults where they are unset.
    pub fn apply_defaults(&mut self)
        requires
            old(self).wf(),
        ensures
            final(self).wf(),
            final(self).header == old(self).header,
            final(self).model() == with_defaults(old(self).model()),
    {
        proof {
            reveal_strlit("qemux86-64");
            reveal_strlit("poky");
            reveal_strlit("core-image-minimal");
            reveal_strlit("build");
        }
        self.machine = text_or(&self.machine, "qemux86-64");
        self.distro = text_or(&self.distro, "poky");
        self.task = text_or(&self.task, "build");
        if self.target.len() == 0 {
            let mut t: Vec<String> = Vec::new();
            t.push("core-image-minimal".to_owned());
            assert(crate::text::views_of(t@) =~= seq![default_target()]);
            self.target = t;
        }
        assert(self.model() == with_defaults(old(self).model()));
    }
}

/// The models of the documents that `order` picks from `store`.
pub open spec fn picked(store: Seq<Document>, order: Seq<int>) -> Seq<ConfigModel> {
    order.map_values(|i: int| store[i].config.model())
}

pub open spec fn all_wf(store: Seq<Document>) -> bool {
    forall|i: int| 0 <= i < store.len() ==> (#[trigger] store[i]).config.wf()
}

/// Merges the documents of `store` in the order given; the result's header
/// is empty.
pub fn merge_documents(store: &Vec<Document>, order: &Vec<usize>) -> (r: ProjectConfig)
    requires
        all_wf(store@),
        forall|i: int| 0 <= i < order@.len() ==> order@[i] < store@.len(),
    ensures
        r.wf(),
        r.header.version@.len() == 0,
        r.header.includes@.len() == 0,
        r.model() == merged_all(picked(store@, ints(order@))),
{
    let mut r = ProjectConfig::new(Header::new(String::new()));
    assert(r.model() == empty_model()) by {
        assert(r.model().env =~= Map::empty());
        assert(r.model().repos =~= Map::empty());
        assert(r.model().target =~= Seq::empty());
    }
    assert(picked(store@, ints(order@)).take(0) =~= Seq::empty());
    let mut i: usize = 0;
    while i < order.len()
        invariant
            all_wf(store@),
            forall|j: int| 0 <= j < order@.len() ==> order@[j] < store@.len(),
            i <= order@.len(),
            r.wf(),
            r.header.version@.len() == 0,
            r.header.includes@.len() == 0,
            r.model() == merged_all(picked(store@, ints(order@)).take(i as int)),
        decreases order@.len() - i,
    {
        assert(store@[order@[i as int] as int].config.wf());
        r.merge_from(&store[order[i]].config);
        assert(picked(store@, ints(order@)).take(i + 1).drop_last() =~= picked(store@, ints(order@)).take(i as int));
        i = i + 1;
    }
    assert(picked(store@, ints(order@)).take(i as int) =~= picked(store@, ints(order@)));
    r
}

/// The effective configuration for the document at `root`: the expanded
/// documents merged in order, then the environment overrides, then the
/// compiled-in defaults for what is still unset. The header
/// keeps the root document's version and lists no includes.
pub fn resolve_config(store: &Vec<Document>, root: usize, env: &EnvOverrides) -> (r: Result<
    ProjectConfig,
    IncludeError,
>)
    requires
        root < store@.len(),
        all_wf(store@),
    ensures
        match expansion_of(store@, root as int) {
            Ok((order, _)) => r matches Ok(c) && c.wf() && c.model() == with_defaults(
                overridden(merged_all(picked(store@, order)), env.model()),
            ) && c.header.version == store@[root as int].config.header.version
                && c.header.includes@.len() == 0,
            Err(e) => r matches Err(x) && x.model() == e,
        },
{
    let order = match resolve_order(store, root) {
        Ok(order) => order,
        Err(e) => {
            return Err(e);
        },
    };
    let mut config = merge_documents(store, &order);
    config.header.version = store[root].config.header.version.clone();
    config.apply_env(env);
    config.apply_defaults();
    Ok(config)
}

/// Overrides that are absent or empty leave the merged values, and the
/// defaults then fill only what no document set.
pub proof fn lemma_unset_overrides_keep_merged(m: ConfigModel, e: EnvModel)
    requires
        !is_set(e.machine),
        !is_set(e.distro),
        !is_set(e.target),
        !is_set(e.task),
    ensures
        with_defaults(overridden(m, e)) == with_defaults(m),
{
}

} // verus!
