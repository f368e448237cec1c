//! Folding an ordered list of documents into one effective configuration.
use vstd::prelude::*;

use crate::keymap::{KeyMap, Modeled};
use crate::project::{copy_text, ConfigModel, Header, ProjectConfig, Repo, RepoModel};
use crate::text::views_of;

verus! {

/// A scalar set by a later document wins over the earlier value.
pub open spec fn later<A>(base: Option<A>, over: Option<A>) -> Option<A> {
    if over is Some {
        over
    } else {
        base
    }
}

/// Field-by-field merge of two entries for the same repository.
pub open spec fn merged_repo(b: RepoModel, o: RepoModel) -> RepoModel {
    RepoModel {
        name: later(b.name, o.name),
        url: later(b.url, o.url),
        vcs: later(b.vcs, o.vcs),
        commit: later(b.commit, o.commit),
        branch: later(b.branch, o.branch),
        refspec: later(b.refspec, o.refspec),
        path: later(b.path, o.path),
        layers: b.layers.union_prefer_right(o.layers),
        patches: b.patches.union_prefer_right(o.patches),
    }
}

/// An entry without body adds nothing to the entry it meets.
pub open spec fn merged_entry(b: Option<RepoModel>, o: Option<RepoModel>) -> Option<RepoModel> {
    match (b, o) {
        (Some(x), Some(y)) => Some(merged_repo(x, y)),
        (Some(x), None) => Some(x),
        (None, y) => y,
    }
}

/// Union of repository tables, merging the entries of an id found in both.
pub open spec fn merged_repos(
    b: Map<Seq<char>, Option<RepoModel>>,
    o: Map<Seq<char>, Option<RepoModel>>,
) -> Map<Seq<char>, Option<RepoModel>> {
    Map::new(
        |k: Seq<char>| b.contains_key(k) || o.contains_key(k),
        |k: Seq<char>|
            if b.contains_key(k) && o.contains_key(k) {
                merged_entry(b[k], o[k])
            } else if o.contains_key(k) {
                o[k]
            } else {
                b[k]
            },
    )
}

/// `over` merged on top of `base`.
pub open spec fn merged(b: ConfigModel, o: ConfigModel) -> ConfigModel {
    ConfigModel {
        build_system: later(b.build_system, o.build_system),
        machine: later(b.machine, o.machine),
        distro: later(b.distro, o.distro),
        target: if o.target.len() > 0 {
            o.target
        } else {
            b.target
        },
        env: b.env.union_prefer_right(o.env),
        task: later(b.task, o.task),
        repos: merged_repos(b.repos, o.repos),
    }
}

/// The configuration that sets nothing.
pub open spec fn empty_model() -> ConfigModel {
    ConfigModel {
        build_system: None,
        machine: None,
        distro: None,
        target: Seq::empty(),
        env: Map::empty(),
        task: None,
        repos: Map::empty(),
    }
}

/// The documents merged in order, each on top of those before it.
pub open spec fn merged_all(docs: Seq<ConfigModel>) -> ConfigModel
    decreases docs.len(),
{
    if docs.len() == 0 {
        empty_model()
    } else {
        merged(merged_all(docs.drop_last()), docs.last())
    }
}

fn later_text(base: &Option<String>, over: &Option<String>) -> (r: Option<String>)
    ensures
        crate::project::text_of(r) == later(
            crate::project::text_of(*base),
            crate::project::text_of(*over),
        ),
{
    if over.is_some() {
        copy_text(over)
    } else {
        copy_text(base)
    }
}

/// Merges `over` into `base` field by field.
pub fn merge_repo(base: &Repo, over: &Repo) -> (r: Repo)
    requires
        base.wf(),
        over.wf(),
    ensures
        r.wf(),
        r.model() == merged_repo(base.model(), over.model()),
{
    let mut layers = crate::project::copy_map(&base.layers);
    layers.overlay(&over.layers);
    let mut patches = crate::project::copy_map(&base.patches);
    patches.overlay(&over.patches);
    Repo {
        name: later_text(&base.name, &over.name),
        url: later_text(&base.url, &over.url),
        vcs: if over.vcs.is_some() {
            over.vcs
        } else {
            base.vcs
        },
        commit: later_text(&base.commit, &over.commit),
        branch: later_text(&base.branch, &over.branch),
        refspec: later_text(&base.refspec, &over.refspec),
        path: later_text(&base.path, &over.path),
        layers,
        patches,
    }
}

/// Merges two entries of the same repository id.
pub fn merge_entry(base: &Option<Repo>, over: &Option<Repo>) -> (r: Option<Repo>)
    requires
        base.inv(),
        over.inv(),
    ensures
        r.inv(),
        r.model() == merged_entry(base.model(), over.model()),
{
    match (base, over) {
        (Some(x), Some(y)) => Some(merge_repo(x, y)),
        (Some(x), None) => Some(x.duplicate()),
        (None, y) => y.duplicate(),
    }
}

impl ProjectConfig {
    /// Merges `over` into this configuration; the header stays.
    pub fn merge_from(&mut self, over: &ProjectConfig)
        requires
            old(self).wf(),
            over.wf(),
        ensures
            final(self).wf(),
            final(self).header == old(self).header,
            final(self).model() == merged(old(self).model(), over.model()),
    {
        let ghost before = self.model();
        if over.build_system.is_some() {
            self.build_system = over.build_system;
        }
        self.machine = later_text(&self.machine, &over.machine);
        self.distro = later_text(&self.distro, &over.distro);
        self.task = later_text(&self.task, &over.task);
        if over.target.len() > 0 {
            let mut t: Vec<String> = Vec::new();
            let mut i: usize = 0;
            while i < over.target.len()
                invariant
                    i <= over.target@.len(),
                    views_of(t@) == views_of(over.target@.take(i as int)),
                decreases over.target@.len() - i,
            {
                let item = over.target[i].clone();
                let ghost prev = t@;
                t.push(item);
                proof {
                    assert(over.target@.take(i + 1) =~= over.target@.take(i as int).push(over.target@[i as int]));
                    assert(views_of(t@) =~= views_of(prev).push(item@));
                    assert(views_of(over.target@.take(i + 1)) =~= views_of(over.target@.take(i as int)).push(item@));
                    assert(views_of(t@) =~= views_of(over.target@.take(i + 1)));
                }
                i = i + 1;
            }
            assert(over.target@.take(i as int) =~= over.target@);
            self.target = t;
        }
        self.env.overlay(&over.env);
        merge_repos(&mut self.repos, &over.repos);
        assert(self.model().env == before.env.union_prefer_right(over.model().env));
    }
}

/// Merges the repository table `over` into `base`.
pub fn merge_repos(base: &mut KeyMap<Option<Repo>>, over: &KeyMap<Option<Repo>>)
    requires
        old(base).wf(),
        old(base).all_inv(),
        over.wf(),
        over.all_inv(),
    ensures
        final(base).wf(),
        final(base).all_inv(),
        final(base).model() == merged_repos(old(base).model(), over.model()),
{
    let ghost start = base.model();
    let ghost target = merged_repos(start, over.model());
    let mut i: usize = 0;
    while i < over.len()
        invariant
            base.wf(),
            base.all_inv(),
            over.wf(),
            over.all_inv(),
            i <= over.keys().len(),
            start == old(base).model(),
            target == merged_repos(start, over.model()),
            forall|k: Seq<char>|
                #[trigger] base@.contains_key(k) <==> (start.contains_key(k) || exists|j: int|
                    0 <= j < i && over.keys()[j] == k),
            forall|j: int|
                0 <= j < i ==> base.model()[#[trigger] over.keys()[j]] == target[over.keys()[j]],
            forall|k: Seq<char>|
                start.contains_key(k) && !(exists|j: int| 0 <= j < i && over.keys()[j] == k)
                    ==> base.model()[k] == #[trigger] start[k],
        decreases over.keys().len() - i,
    {
        let key = over.key(i);
        proof {
            over.lemma_distinct(i as int);
            over.lemma_entry(i as int);
        }
        let value = match base.get(key.as_str()) {
            Some(existing) => merge_entry(existing, over.value(i)),
            None => over.value(i).duplicate(),
        };
        base.insert(key.clone(), value);
        i = i + 1;
    }
    proof {
        assert forall|k: Seq<char>| #[trigger] base.model().contains_key(k) == target.contains_key(k) by {
            if over@.contains_key(k) {
                let j = over.index_of(k);
                assert(over.keys()[j] == k);
            }
            if exists|j: int| 0 <= j < i && over.keys()[j] == k {
                let j = choose|j: int| 0 <= j < i && over.keys()[j] == k;
                over.lemma_entry(j);
            }
        }
        assert forall|k: Seq<char>| #[trigger] base.model().contains_key(k) implies base.model()[k]
            == target[k] by {
            if over@.contains_key(k) {
                let j = over.index_of(k);
                assert(over.keys()[j] == k);
            } else {
                if exists|j: int| 0 <= j < i && over.keys()[j] == k {
                    let j = choose|j: int| 0 <= j < i && over.keys()[j] == k;
                    over.lemma_entry(j);
                }
            }
        }
        assert(base.model() =~= target);
    }
}

/// Merging is sensitive to order, field by field: of two documents that
/// both set a scalar field, the one merged last decides it, in either order.
pub proof fn lemma_last_document_wins(a: ConfigModel, b: ConfigModel)
    ensures
        b.machine is Some ==> merged_all(seq![a, b]).machine == b.machine,
        a.machine is Some ==> merged_all(seq![b, a]).machine == a.machine,
        b.distro is Some ==> merged_all(seq![a, b]).distro == b.distro,
        a.distro is Some ==> merged_all(seq![b, a]).distro == a.distro,
        b.task is Some ==> merged_all(seq![a, b]).task == b.task,
        a.task is Some ==> merged_all(seq![b, a]).task == a.task,
        b.build_system is Some ==> merged_all(seq![a, b]).build_system == b.build_system,
        a.build_system is Some ==> merged_all(seq![b, a]).build_system == a.build_system,
{
    assert(seq![a, b].drop_last() =~= seq![a]);
    assert(seq![b, a].drop_last() =~= seq![b]);
    assert(seq![a].drop_last() =~= Seq::<ConfigModel>::empty());
    assert(seq![b].drop_last() =~= Seq::<ConfigModel>::empty());
}

} // verus!
