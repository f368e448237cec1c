//! For each repository of the effective configuration: where it is checked
//! out, which of its layers are used, and the patches to apply, in order.
use vstd::prelude::*;

use crate::keymap::{KeyMap, Modeled};
use crate::paths::{join, join_path, resolve, resolve_path};
use crate::project::{copy_text, text_of, ProjectConfig, Repo, RepoModel};
use crate::text::{key_lt, str_eq};

verus! {

/// A patch ready to apply.
#[derive(Debug, Clone, PartialEq, Eq)]
pub struct ResolvedPatch {
    pub id: String,
    /// The id of the repository that holds the patch file.
    pub repo: String,
    /// The patch file inside that repository's checkout.
    pub file: String,
}

/// A repository ready to check out.
#[derive(Debug, Clone, PartialEq, Eq)]
pub struct ResolvedRepo {
    pub id: String,
    pub name: String,
    /// Where the repository is checked out.
    pub path: String,
    pub url: Option<String>,
    /// The layer directories, in ascending order of their relative path.
    pub layers: Vec<String>,
    /// The patches, in ascending order of their id.
    pub patches: Vec<ResolvedPatch>,
}

/// A patch that names a repository the configuration does not have.
#[derive(Debug, Clone, PartialEq, Eq)]
pub struct UnknownPatchRepo {
    /// The repository whose patch it is.
    pub repo: String,
    pub patch: String,
    /// The repository id the patch names.
    pub patch_repo: String,
}

pub struct ResolvedPatchModel {
    pub id: Seq<char>,
    pub repo: Seq<char>,
    pub file: Seq<char>,
}

pub struct ResolvedRepoModel {
    pub id: Seq<char>,
    pub name: Seq<char>,
    pub path: Seq<char>,
    pub url: Option<Seq<char>>,
    pub layers: Seq<Seq<char>>,
    pub patches: Seq<ResolvedPatchModel>,
}

impl ResolvedPatch {
    pub open spec fn model(&self) -> ResolvedPatchModel {
        ResolvedPatchModel { id: self.id@, repo: self.repo@, file: self.file@ }
    }
}

impl ResolvedRepo {
    pub open spec fn model(&self) -> ResolvedRepoModel {
        ResolvedRepoModel {
            id: self.id@,
            name: self.name@,
            path: self.path@,
            url: text_of(self.url),
            layers: crate::text::views_of(self.layers@),
            patches: self.patches@.map_values(|p: ResolvedPatch| p.model()),
        }
    }
}

/// The name of repository `id`: its own, else the id.
pub open spec fn repo_name(id: Seq<char>, r: Option<RepoModel>) -> Seq<char> {
    match r {
        Some(m) => match m.name {
            Some(n) => n,
            None => id,
        },
        None => id,
    }
}

/// Where repository `id` is checked out: its explicit path, resolved
/// against the work directory, else its name inside the work directory.
pub open spec fn checkout_path(work: Seq<char>, id: Seq<char>, r: Option<RepoModel>) -> Seq<char> {
    match r {
        Some(m) => match m.path {
            Some(p) => resolve_path(work, p),
            None => join_path(work, repo_name(id, r)),
        },
        None => join_path(work, id),
    }
}

/// A layer is used unless its marker is one of the words that disable it.
pub open spec fn layer_enabled(marker: Option<Seq<char>>) -> bool {
    match marker {
        Some(m) => !(m == "disabled"@ || m == "excluded"@ || m == "n"@ || m == "no"@ || m == "0"@
            || m == "false"@),
        None => true,
    }
}

/// The directory of layer `l` of the repository checked out at `root`;
/// `.` is the root itself.
pub open spec fn layer_path(root: Seq<char>, l: Seq<char>) -> Seq<char> {
    if l == "."@ {
        root
    } else {
        join_path(root, l)
    }
}

/// The directories of the enabled layers among `keys`, in order.
pub open spec fn enabled_layers(
    root: Seq<char>,
    keys: Seq<Seq<char>>,
    marks: Map<Seq<char>, Option<Seq<char>>>,
) -> Seq<Seq<char>>
    decreases keys.len(),
{
    if keys.len() == 0 {
        Seq::empty()
    } else {
        let front = enabled_layers(root, keys.drop_last(), marks);
        if layer_enabled(marks[keys.last()]) {
            front.push(layer_path(root, keys.last()))
        } else {
            front
        }
    }
}

/// The layers of a repository: the enabled ones it lists, or its root when
/// it lists none.
pub open spec fn repo_layers(root: Seq<char>, entry: Option<Repo>) -> Seq<Seq<char>> {
    match entry {
        Some(r) => if r.layers.keys().len() == 0 {
            seq![root]
        } else {
            enabled_layers(root, r.layers.keys(), r.layers.model())
        },
        None => seq![root],
    }
}

/// The patches of a repository in ascending order of id, each with its file
/// inside the checkout of the repository it names.
pub open spec fn repo_patches(
    work: Seq<char>,
    entry: Option<Repo>,
    repos: Map<Seq<char>, Option<RepoModel>>,
) -> Seq<ResolvedPatchModel> {
    match entry {
        Some(r) => r.patches.keys().map_values(
            |k: Seq<char>|
                {
                    let p = r.patches.model()[k];
                    ResolvedPatchModel {
                        id: k,
                        repo: p.repo,
                        file: join_path(checkout_path(work, p.repo, repos[p.repo]), p.path),
                    }
                },
        ),
        None => Seq::empty(),
    }
}

/// Repository `id` of the configuration, resolved.
pub open spec fn resolved_repo(
    work: Seq<char>,
    id: Seq<char>,
    entry: Option<Repo>,
    repos: Map<Seq<char>, Option<RepoModel>>,
) -> ResolvedRepoModel {
    let m = repos[id];
    let path = checkout_path(work, id, m);
    ResolvedRepoModel {
        id,
        name: repo_name(id, m),
        path,
        url: match m {
            Some(x) => x.url,
            None => None,
        },
        layers: repo_layers(path, entry),
        patches: repo_patches(work, entry, repos),
    }
}

/// Every patch names a repository of the configuration.
pub open spec fn patches_known(repos: Map<Seq<char>, Option<RepoModel>>) -> bool {
    forall|id: Seq<char>, p: Seq<char>|
        #![trigger repos[id]->Some_0.patches[p]]
        repos.contains_key(id) && repos[id] is Some && repos[id]->Some_0.patches.contains_key(p)
            ==> repos.contains_key(repos[id]->Some_0.patches[p].repo)
}

fn repo_name_of(id: &String, entry: &Option<Repo>) -> (r: String)
    ensures
        r@ == repo_name(id@, entry.model()),
{
    match entry {
        Some(m) => match &m.name {
            Some(n) => n.clone(),
            None => id.clone(),
        },
        None => id.clone(),
    }
}

fn checkout_path_of(work: &str, id: &String, entry: &Option<Repo>) -> (r: String)
    ensures
        r@ == checkout_path(work@, id@, entry.model()),
{
    match entry {
        Some(m) => match &m.path {
            Some(p) => resolve(work, p.as_str()),
            None => {
                let name = repo_name_of(id, entry);
                join(work, name.as_str())
            },
        },
        None => join(work, id.as_str()),
    }
}

fn is_enabled(marker: &Option<String>) -> (r: bool)
    ensures
        r == layer_enabled(text_of(*marker)),
{
    proof {
        reveal_strlit("disabled");
        reveal_strlit("excluded");
        reveal_strlit("n");
        reveal_strlit("no");
        reveal_strlit("0");
        reveal_strlit("false");
    }
    match marker {
        Some(m) => {
            let s = m.as_str();
            !(str_eq(s, "disabled") || str_eq(s, "excluded") || str_eq(s, "n") || str_eq(s, "no")
                || str_eq(s, "0") || str_eq(s, "false"))
        },
        None => true,
    }
}

fn layers_of(root: &String, entry: &Option<Repo>) -> (r: Vec<String>)
    requires
        entry.inv(),
    ensures
        crate::text::views_of(r@) == repo_layers(root@, *entry),
{
    proof {
        reveal_strlit(".");
    }
    match entry {
        None => {
            let mut v: Vec<String> = Vec::new();
            v.push(root.clone());
            assert(crate::text::views_of(v@) =~= seq![root@]);
            v
        },
        Some(r) => {
            if r.layers.is_empty() {
                let mut v: Vec<String> = Vec::new();
                v.push(root.clone());
                assert(crate::text::views_of(v@) =~= seq![root@]);
                return v;
            }
            let mut v: Vec<String> = Vec::new();
            let mut i: usize = 0;
            assert(crate::text::views_of(v@) =~= enabled_layers(root@, r.layers.keys().take(0), r.layers.model()));
            while i < r.layers.len()
                invariant
                    r.layers.wf(),
                    i <= r.layers.keys().len(),
                    crate::text::views_of(v@) == enabled_layers(
                        root@,
                        r.layers.keys().take(i as int),
                        r.layers.model(),
                    ),
                decreases r.layers.keys().len() - i,
            {
                let key = r.layers.key(i);
                let marker = r.layers.value(i);
                proof {
                    r.layers.lemma_entry(i as int);
                    assert(r.layers.keys().take(i + 1).drop_last() =~= r.layers.keys().take(i as int));
                }
                if is_enabled(marker) {
                    let ghost prev = v@;
                    let dir = if str_eq(key.as_str(), ".") {
                        root.clone()
                    } else {
                        join(root.as_str(), key.as_str())
                    };
                    v.push(dir);
                    assert(crate::text::views_of(v@) =~= crate::text::views_of(prev).push(dir@));
                }
                i = i + 1;
            }
            assert(r.layers.keys().take(i as int) =~= r.layers.keys());
            v
        },
    }
}

/// Every patch of `entry` names a repository of `repos`.
pub open spec fn entry_patches_known(entry: Option<Repo>, repos: Map<Seq<char>, Option<RepoModel>>) -> bool {
    match entry {
        Some(r) => forall|p: Seq<char>|
            #[trigger] r.patches.model().contains_key(p) ==> repos.contains_key(
                r.patches.model()[p].repo,
            ),
        None => true,
    }
}

/// `e` describes a patch of repository `id` that names no repository of
/// `repos`.
pub open spec fn is_unknown_patch(
    e: UnknownPatchRepo,
    repos: Map<Seq<char>, Option<RepoModel>>,
) -> bool {
    &&& repos.contains_key(e.repo@)
    &&& repos[e.repo@] is Some
    &&& repos[e.repo@]->Some_0.patches.contains_key(e.patch@)
    &&& repos[e.repo@]->Some_0.patches[e.patch@].repo == e.patch_repo@
    &&& !repos.contains_key(e.patch_repo@)
}

fn patches_of(work: &str, id: &String, entry: &Option<Repo>, repos: &KeyMap<Option<Repo>>) -> (r: Result<
    Vec<ResolvedPatch>,
    UnknownPatchRepo,
>)
    requires
        entry.inv(),
        repos.wf(),
        repos.all_inv(),
    ensures
        r is Ok <==> entry_patches_known(*entry, repos.model()),
        r matches Ok(v) ==> v@.map_values(|p: ResolvedPatch| p.model()) == repo_patches(
            work@,
            *entry,
            repos.model(),
        ),
        r matches Err(e) ==> e.repo@ == id@ && entry is Some && entry->Some_0.patches.model().contains_key(
            e.patch@,
        ) && entry->Some_0.patches.model()[e.patch@].repo == e.patch_repo@ && !repos.model().contains_key(
            e.patch_repo@,
        ),
{
    match entry {
        None => {
            let v: Vec<ResolvedPatch> = Vec::new();
            assert(v@.map_values(|p: ResolvedPatch| p.model()) =~= Seq::<ResolvedPatchModel>::empty());
            Ok(v)
        },
        Some(rp) => {
            let ghost target = repo_patches(work@, *entry, repos.model());
            let mut v: Vec<ResolvedPatch> = Vec::new();
            let mut j: usize = 0;
            while j < rp.patches.len()
                invariant
                    rp.patches.wf(),
                    repos.wf(),
                    repos.all_inv(),
                    target == repo_patches(work@, *entry, repos.model()),
                    *entry == Some(*rp),
                    j <= rp.patches.keys().len(),
                    v@.len() == j,
                    forall|l: int| 0 <= l < j ==> (#[trigger] v@[l]).model() == target[l],
                    forall|l: int|
                        0 <= l < j ==> repos.model().contains_key(
                            rp.patches.model()[#[trigger] rp.patches.keys()[l]].repo,
                        ),
                decreases rp.patches.keys().len() - j,
            {
                let key = rp.patches.key(j);
                let patch = rp.patches.value(j);
                proof {
                    rp.patches.lemma_entry(j as int);
                }
                match repos.get(patch.repo.as_str()) {
                    None => {
                        assert(rp.patches.model().contains_key(key@));
                        assert(!repos.model().contains_key(patch.repo@));
                        return Err(
                            UnknownPatchRepo {
                                repo: id.clone(),
                                patch: key.clone(),
                                patch_repo: patch.repo.clone(),
                            },
                        );
                    },
                    Some(holder) => {
                        let dir = checkout_path_of(work, &patch.repo, holder);
                        let file = join(dir.as_str(), patch.path.as_str());
                        let item = ResolvedPatch { id: key.clone(), repo: patch.repo.clone(), file };
                        v.push(item);
                    },
                }
                j = j + 1;
            }
            proof {
                assert(v@.map_values(|p: ResolvedPatch| p.model()) =~= target);
                assert forall|p: Seq<char>| #[trigger] rp.patches.model().contains_key(p) implies repos.model().contains_key(
                    rp.patches.model()[p].repo,
                ) by {
                    let l = rp.patches.index_of(p);
                    assert(rp.patches.keys()[l] == p);
                }
            }
            Ok(v)
        },
    }
}

/// Resolves every repository of `config`, in ascending order of id, with
/// `work` as the work directory.
pub fn resolve_repos(config: &ProjectConfig, work: &str) -> (r: Result<Vec<ResolvedRepo>, UnknownPatchRepo>)
    requires
        config.wf(),
    ensures
        r is Ok <==> patches_known(config.repos.model()),
        r matches Ok(v) ==> v@.len() == config.repos.keys().len() && forall|i: int|
            0 <= i < v@.len() ==> (#[trigger] v@[i]).model() == resolved_repo(
                work@,
                config.repos.keys()[i],
                config.repos.values()[i],
                config.repos.model(),
            ),
        r matches Err(e) ==> is_unknown_patch(e, config.repos.model()),
{
    let repos = &config.repos;
    let mut v: Vec<ResolvedRepo> = Vec::new();
    let mut i: usize = 0;
    while i < repos.len()
        invariant
            repos == &config.repos,
            repos.wf(),
            repos.all_inv(),
            i <= repos.keys().len(),
            v@.len() == i,
            forall|l: int|
                0 <= l < i ==> (#[trigger] v@[l]).model() == resolved_repo(
                    work@,
                    repos.keys()[l],
                    repos.values()[l],
                    repos.model(),
                ),
            forall|l: int|
                0 <= l < i ==> entry_patches_known(#[trigger] repos.values()[l], repos.model()),
        decreases repos.keys().len() - i,
    {
        let id = repos.key(i);
        let entry = repos.value(i);
        proof {
            repos.lemma_entry(i as int);
        }
        let path = checkout_path_of(work, id, entry);
        let layers = layers_of(&path, entry);
        let patches = match patches_of(work, id, entry, repos) {
            Ok(p) => p,
            Err(e) => {
                proof {
                    assert(repos.model()[id@] == entry.model());
                    assert(repos.model()[id@]->Some_0.patches[e.patch@].repo == e.patch_repo@);
                }
                return Err(e);
            },
        };
        let url = match entry {
            Some(m) => copy_text(&m.url),
            None => None,
        };
        let item = ResolvedRepo { id: id.clone(), name: repo_name_of(id, entry), path, url, layers, patches };
        v.push(item);
        i = i + 1;
    }
    proof {
        assert forall|id: Seq<char>, p: Seq<char>|
            repos.model().contains_key(id) && repos.model()[id] is Some && repos.model()[id]->Some_0.patches.contains_key(p)
            implies repos.model().contains_key(#[trigger] repos.model()[id]->Some_0.patches[p].repo) by {
            let l = repos.index_of(id);
            assert(repos.keys()[l] == id);
            repos.lemma_entry(l);
            assert(entry_patches_known(repos.values()[l], repos.model()));
        }
    }
    Ok(v)
}

/// A repository that lists no layers, or has no body, has exactly one
/// layer: its checkout root.
pub proof fn lemma_default_layer(
    work: Seq<char>,
    id: Seq<char>,
    entry: Option<Repo>,
    repos: Map<Seq<char>, Option<RepoModel>>,
)
    requires
        entry matches Some(r) ==> r.layers.keys().len() == 0,
    ensures
        resolved_repo(work, id, entry, repos).layers == seq![resolved_repo(work, id, entry, repos).path],
{
}

} // verus!
