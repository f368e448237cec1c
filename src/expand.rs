//! Expansion of a document's includes into the ordered list of documents to
//! merge: each document's includes, depth first and in order, then the
//! document itself.
use vstd::prelude::*;

use crate::project::ProjectConfig;
use crate::text::str_eq;

verus! {

/// A loaded document and where it was read from.
#[derive(Debug, Clone, PartialEq, Eq)]
pub struct Document {
    /// The id of the repository that holds the file.
    pub repo: String,
    /// The file, relative to the repository's root.
    pub file: String,
    pub config: ProjectConfig,
}

#[derive(Debug, Clone, Copy, PartialEq, Eq, Structural)]
pub enum IncludeErrorKind {
    /// The entry names a repository that is not known at that point.
    UnresolvedRepo,
    /// The included document is already being expanded.
    IncludeCycle,
    /// No document was loaded for the entry.
    MissingDocument,
}

/// Why an entry could not be expanded, and which entry it was.
#[derive(Debug, Clone, PartialEq, Eq)]
pub struct IncludeError {
    pub kind: IncludeErrorKind,
    pub repo: String,
    pub file: String,
}

impl IncludeError {
    pub open spec fn model(&self) -> (IncludeErrorKind, Seq<char>, Seq<char>) {
        (self.kind, self.repo@, self.file@)
    }
}

/// The result of expanding: the documents in merge order and the
/// repository ids known afterwards, or the first failure.
pub type Expansion = Result<(Seq<int>, Set<Seq<char>>), (IncludeErrorKind, Seq<char>, Seq<char>)>;

/// The first document read from `file` of repository `repo`.
pub open spec fn find_doc(store: Seq<Document>, repo: Seq<char>, file: Seq<char>) -> Option<int>
    decreases store.len(),
{
    if store.len() == 0 {
        None
    } else {
        match find_doc(store.drop_last(), repo, file) {
            Some(i) => Some(i),
            None => if store.last().repo@ == repo && store.last().file@ == file {
                Some(store.len() - 1)
            } else {
                None
            },
        }
    }
}

/// The repository ids a document declares.
pub open spec fn declared_repos(d: Document) -> Set<Seq<char>> {
    d.config.repos@.dom()
}

/// The repository an entry of document `d` reads from.
pub open spec fn source_repo(d: Document, i: int) -> Seq<char> {
    let inc = d.config.header.includes@[i];
    if inc.repo@.len() == 0 {
        d.repo@
    } else {
        inc.repo@
    }
}

/// Expands the document last on `path`, with the repository ids in `known`.
pub open spec fn expand_doc(store: Seq<Document>, path: Seq<int>, known: Set<Seq<char>>) -> Expansion
    decreases store.len() - path.len(), 1int, 0int,
{
    let idx = path.last();
    let known2 = known + declared_repos(store[idx]);
    match expand_includes(store, path, known2, 0) {
        Ok((order, k)) => Ok((order.push(idx), k)),
        Err(e) => Err(e),
    }
}

/// Expands the includes from the `i`-th on of the document last on `path`.
pub open spec fn expand_includes(
    store: Seq<Document>,
    path: Seq<int>,
    known: Set<Seq<char>>,
    i: int,
) -> Expansion
    decreases store.len() - path.len(), 0int, store[path.last()].config.header.includes@.len() - i,
{
    let d = store[path.last()];
    let incs = d.config.header.includes@;
    if i < 0 || i >= incs.len() {
        Ok((Seq::empty(), known))
    } else {
        let inc = incs[i];
        let repo = source_repo(d, i);
        if inc.repo@.len() > 0 && !known.contains(repo) {
            Err((IncludeErrorKind::UnresolvedRepo, repo, inc.file@))
        } else {
            match find_doc(store, repo, inc.file@) {
                None => Err((IncludeErrorKind::MissingDocument, repo, inc.file@)),
                Some(k) => if path.contains(k) || path.len() >= store.len() {
                    // a path as long as the store holds every document, so
                    // this too is a revisit (see lemma_full_path_repeats)
                    Err((IncludeErrorKind::IncludeCycle, repo, inc.file@))
                } else {
                    match expand_doc(store, path.push(k), known) {
                        Err(e) => Err(e),
                        Ok((first, known1)) => match expand_includes(store, path, known1, i + 1) {
                            Err(e) => Err(e),
                            Ok((rest, known2)) => Ok((first + rest, known2)),
                        },
                    }
                },
            }
        }
    }
}

/// The merge order for the document at `root`: the indices into `store`,
/// earliest included first and `root` last.
pub open spec fn expansion_of(store: Seq<Document>, root: int) -> Expansion {
    expand_doc(store, seq![root], Set::empty())
}

pub open spec fn ints(v: Seq<usize>) -> Seq<int> {
    v.map_values(|x: usize| x as int)
}

pub open spec fn names(v: Seq<String>) -> Set<Seq<char>> {
    Set::new(|k: Seq<char>| exists|i: int| 0 <= i < v.len() && #[trigger] v[i]@ == k)
}

pub open spec fn keys_before(keys: Seq<Seq<char>>, i: int) -> Set<Seq<char>> {
    Set::new(|k: Seq<char>| exists|j: int| 0 <= j < i && keys[j] == k)
}

proof fn lemma_find_doc(store: Seq<Document>, repo: Seq<char>, file: Seq<char>)
    ensures
        find_doc(store, repo, file) matches Some(i) ==> 0 <= i < store.len() && store[i].repo@ == repo
            && store[i].file@ == file,
    decreases store.len(),
{
    if store.len() > 0 {
        lemma_find_doc(store.drop_last(), repo, file);
    }
}

fn find_document(store: &Vec<Document>, repo: &str, file: &str) -> (r: Option<usize>)
    ensures
        match find_doc(store@, repo@, file@) {
            Some(i) => r == Some(i as usize) && 0 <= i < store@.len(),
            None => r.is_none(),
        },
{
    proof {
        lemma_find_doc(store@, repo@, file@);
    }
    let mut i: usize = 0;
    while i < store.len()
        invariant
            i <= store@.len(),
            find_doc(store@.take(i as int), repo@, file@).is_none(),
        decreases store@.len() - i,
    {
        assert(store@.take(i + 1).drop_last() =~= store@.take(i as int));
        if str_eq(store[i].repo.as_str(), repo) && str_eq(store[i].file.as_str(), file) {
            proof {
                lemma_find_prefix(store@, (i + 1) as int, repo@, file@);
            }
            return Some(i);
        }
        i = i + 1;
    }
    assert(store@.take(i as int) =~= store@);
    None
}

proof fn lemma_find_prefix(store: Seq<Document>, n: int, repo: Seq<char>, file: Seq<char>)
    requires
        0 <= n <= store.len(),
        find_doc(store.take(n), repo, file) is Some,
    ensures
        find_doc(store, repo, file) == find_doc(store.take(n), repo, file),
    decreases store.len() - n,
{
    if n < store.len() {
        assert(store.take(n + 1).drop_last() =~= store.take(n));
        lemma_find_prefix(store, n + 1, repo, file);
    } else {
        assert(store.take(n) =~= store);
    }
}

fn contains_name(v: &Vec<String>, s: &str) -> (r: bool)
    ensures
        r == names(v@).contains(s@),
{
    let mut i: usize = 0;
    while i < v.len()
        invariant
            i <= v@.len(),
            forall|j: int| 0 <= j < i ==> v@[j]@ != s@,
        decreases v@.len() - i,
    {
        if str_eq(v[i].as_str(), s) {
            return true;
        }
        i = i + 1;
    }
    false
}

fn contains_index(v: &Vec<usize>, x: usize) -> (r: bool)
    ensures
        r == ints(v@).contains(x as int),
{
    let mut i: usize = 0;
    while i < v.len()
        invariant
            i <= v@.len(),
            forall|j: int| 0 <= j < i ==> v@[j] != x,
        decreases v@.len() - i,
    {
        if v[i] == x {
            assert(ints(v@)[i as int] == x as int);
            return true;
        }
        i = i + 1;
    }
    false
}

/// Adds the repository ids that `config` declares to `known`.
fn learn_repos(known: &mut Vec<String>, config: &ProjectConfig)
    ensures
        names(final(known)@) == names(old(known)@) + config.repos@.dom(),
{
    let mut i: usize = 0;
    while i < config.repos.len()
        invariant
            i <= config.repos.keys().len(),
            names(known@) == names(old(known)@) + keys_before(config.repos.keys(), i as int),
        decreases config.repos.keys().len() - i,
    {
        let ghost prev = known@;
        let key = config.repos.key(i).clone();
        known.push(key);
        proof {
            assert forall|k: Seq<char>| names(known@).contains(k) == (names(prev).contains(k) || k == key@) by {
                if names(known@).contains(k) {
                    let j = choose|j: int| 0 <= j < known@.len() && #[trigger] known@[j]@ == k;
                    if j < prev.len() {
                        assert(prev[j]@ == k);
                    }
                }
                if names(prev).contains(k) {
                    let j = choose|j: int| 0 <= j < prev.len() && #[trigger] prev[j]@ == k;
                    assert(known@[j]@ == k);
                }
                if k == key@ {
                    assert(known@[prev.len() as int]@ == k);
                }
            }
            assert(key@ == config.repos.keys()[i as int]);
            assert forall|k: Seq<char>| #[trigger] keys_before(config.repos.keys(), i + 1).contains(k) == (keys_before(config.repos.keys(), i as int).contains(k) || k == key@) by {
                if keys_before(config.repos.keys(), i + 1).contains(k) {
                    let j = choose|j: int| 0 <= j < i + 1 && config.repos.keys()[j] == k;
                    if j < i {
                        assert(keys_before(config.repos.keys(), i as int).contains(k));
                    }
                }
            }
            assert forall|k: Seq<char>| #[trigger] names(known@).contains(k) == (names(old(known)@).contains(k) || keys_before(config.repos.keys(), i + 1).contains(k)) by {
                assert(names(prev).contains(k) == (names(old(known)@) + keys_before(config.repos.keys(), i as int)).contains(k));
                assert(keys_before(config.repos.keys(), i + 1).contains(k) == (keys_before(config.repos.keys(), i as int).contains(k) || k == key@));
            }
            assert(names(known@) =~= names(old(known)@) + keys_before(config.repos.keys(), i + 1));
        }
        i = i + 1;
    }
    proof {
        assert(keys_before(config.repos.keys(), 0) =~= Set::<Seq<char>>::empty());
        assert forall|k: Seq<char>| config.repos@.dom().contains(k) implies keys_before(config.repos.keys(), i as int).contains(k) by {
            let j = config.repos.index_of(k);
            assert(config.repos.keys()[j] == k);
        }
        assert forall|k: Seq<char>| keys_before(config.repos.keys(), i as int).contains(k) implies config.repos@.dom().contains(k) by {
            let j = choose|j: int| 0 <= j < i && config.repos.keys()[j] == k;
            assert(config.repos.has_key(config.repos.keys()[j]));
        }
        assert(names(known@) =~= names(old(known)@) + config.repos@.dom());
    }
}

/// `acc` followed by what `e` expands to, or the failure of `e`.
pub open spec fn prepend(acc: Seq<int>, e: Expansion) -> Expansion {
    match e {
        Ok((o, k)) => Ok((acc + o, k)),
        Err(x) => Err(x),
    }
}

/// Expands the document last on `path`: appends the merge order to `order`
/// and the repository ids learnt on the way to `known`.
fn expand_into(
    store: &Vec<Document>,
    path: &mut Vec<usize>,
    known: &mut Vec<String>,
    order: &mut Vec<usize>,
) -> (r: Result<(), IncludeError>)
    requires
        old(path)@.len() > 0,
        old(path)@.len() <= store@.len(),
        forall|j: int| 0 <= j < old(path)@.len() ==> old(path)@[j] < store@.len(),
        forall|j: int| 0 <= j < old(order)@.len() ==> old(order)@[j] < store@.len(),
    ensures
        forall|j: int| 0 <= j < final(order)@.len() ==> final(order)@[j] < store@.len(),
        match expand_doc(store@, ints(old(path)@), names(old(known)@)) {
            Ok((o, k)) => r is Ok && ints(final(order)@) == ints(old(order)@) + o && names(
                final(known)@,
            ) == k && final(path)@ == old(path)@,
            Err(e) => r matches Err(x) && x.model() == e,
        },
    decreases store@.len() - old(path)@.len(),
{
    let idx = path[path.len() - 1];
    let ghost p = ints(path@);
    assert(p.last() == idx as int);
    learn_repos(known, &store[idx].config);
    let incs = &store[idx].config.header.includes;
    let ghost known0 = names(known@);
    let ghost order0 = ints(order@);
    assert(known0 == names(old(known)@) + declared_repos(store@[idx as int]));
    assert(expand_doc(store@, p, names(old(known)@)) == match expand_includes(store@, p, known0, 0) {
        Ok((o, k)) => Ok((o.push(idx as int), k)),
        Err(e) => Err(e),
    });
    let ghost mut acc: Seq<int> = Seq::empty();
    assert(order0 + acc =~= order0);
    let mut i: usize = 0;
    while i < incs.len()
        invariant
            path@ == old(path)@,
            p == ints(path@),
            p.last() == idx as int,
            idx < store@.len(),
            incs == &store@[idx as int].config.header.includes,
            old(path)@.len() <= store@.len(),
            forall|j: int| 0 <= j < old(path)@.len() ==> old(path)@[j] < store@.len(),
            i <= incs@.len(),
            forall|j: int| 0 <= j < order@.len() ==> order@[j] < store@.len(),
            ints(order@) == order0 + acc,
            expand_doc(store@, p, names(old(known)@)) == match expand_includes(store@, p, known0, 0) {
                Ok((o, k)) => Ok((o.push(idx as int), k)),
                Err(e) => Err(e),
            },
            expand_includes(store@, p, known0, 0) == prepend(
                acc,
                expand_includes(store@, p, names(known@), i as int),
            ),
        decreases incs@.len() - i,
    {
        let entry = &incs[i];
        let repo: &str = if entry.repo.as_str().is_empty() {
            store[idx].repo.as_str()
        } else {
            entry.repo.as_str()
        };
        assert(repo@ == source_repo(store@[idx as int], i as int));
        if !entry.repo.as_str().is_empty() && !contains_name(known, repo) {
            return Err(
                IncludeError {
                    kind: IncludeErrorKind::UnresolvedRepo,
                    repo: repo.to_owned(),
                    file: entry.file.clone(),
                },
            );
        }
        let found = find_document(store, repo, entry.file.as_str());
        let n: usize = store.len();
        proof {
            match find_doc(store@, repo@, entry.file@) {
                Some(j) => {
                    assert(found == Some(j as usize));
                    assert(0 <= j < store@.len());
                    assert(store@.len() == n);
                    assert(found->Some_0 as int == j);
                },
                None => {},
            }
        }
        match found {
            None => {
                return Err(
                    IncludeError {
                        kind: IncludeErrorKind::MissingDocument,
                        repo: repo.to_owned(),
                        file: entry.file.clone(),
                    },
                );
            },
            Some(k) => {
                if contains_index(path, k) || path.len() >= store.len() {
                    return Err(
                        IncludeError {
                            kind: IncludeErrorKind::IncludeCycle,
                            repo: repo.to_owned(),
                            file: entry.file.clone(),
                        },
                    );
                }
                let ghost known_i = names(known@);
                let ghost order_i = ints(order@);
                path.push(k);
                assert(ints(path@) =~= p.push(k as int));
                let r = expand_into(store, path, known, order);
                match r {
                    Err(e) => {
                        return Err(e);
                    },
                    Ok(()) => {},
                }
                path.pop();
                proof {
                    let ed = expand_doc(store@, p.push(k as int), known_i);
                    assert(ed is Ok);
                    let o = ed->Ok_0.0;
                    assert(ints(order@) == order_i + o);
                    let first = ints(order@).subrange(order_i.len() as int, ints(order@).len() as int);
                    assert(first =~= o);
                    assert(ed->Ok_0.1 == names(known@));
                    assert(ints(order@) =~= order_i + first);
                    let rest = expand_includes(store@, p, names(known@), i + 1);
                    assert(expand_includes(store@, p, known_i, i as int) == prepend(first, rest));
                    match rest {
                        Ok((o, kk)) => {
                            assert(acc + (first + o) =~= (acc + first) + o);
                        },
                        Err(_) => {},
                    }
                    acc = acc + first;
                    assert(ints(order@) =~= order0 + acc);
                }
            },
        }
        i = i + 1;
    }
    let ghost before_push = order@;
    order.push(idx);
    assert(ints(order@) =~= ints(before_push).push(idx as int));
    assert(acc + Seq::<int>::empty() =~= acc);
    assert(ints(order@) =~= ints(old(order)@) + acc.push(idx as int));
    Ok(())
}

/// The documents to merge for the document at `root`, as indices into
/// `store`: each document's includes first, depth first and in order, then
/// the document itself.
pub fn resolve_order(store: &Vec<Document>, root: usize) -> (r: Result<Vec<usize>, IncludeError>)
    requires
        root < store@.len(),
    ensures
        r matches Ok(v) ==> forall|j: int| 0 <= j < v@.len() ==> v@[j] < store@.len(),
        match expansion_of(store@, root as int) {
            Ok((o, _)) => r matches Ok(v) && ints(v@) == o,
            Err(e) => r matches Err(x) && x.model() == e,
        },
{
    let mut path: Vec<usize> = Vec::new();
    path.push(root);
    assert(ints(path@) =~= seq![root as int]);
    let mut known: Vec<String> = Vec::new();
    assert(names(known@) =~= Set::<Seq<char>>::empty());
    let mut order: Vec<usize> = Vec::new();
    assert(ints(order@) =~= Seq::<int>::empty());
    let r = expand_into(store, &mut path, &mut known, &mut order);
    match r {
        Ok(()) => {
            Ok(order)
        },
        Err(e) => Err(e),
    }
}

/// Two documents of one repository that list each other are rejected as a
/// cycle, whichever is the root; the expansion ends either way.
pub proof fn lemma_cycle_rejected(store: Seq<Document>, x: int, y: int)
    requires
        0 <= x < store.len(),
        0 <= y < store.len(),
        x != y,
        store[x].repo@ == store[y].repo@,
        store[x].config.header.includes@.len() > 0,
        store[x].config.header.includes@[0].repo@.len() == 0,
        find_doc(store, store[x].repo@, store[x].config.header.includes@[0].file@) == Some(y),
        store[y].config.header.includes@.len() > 0,
        store[y].config.header.includes@[0].repo@.len() == 0,
        find_doc(store, store[y].repo@, store[y].config.header.includes@[0].file@) == Some(x),
    ensures
        expansion_of(store, x) matches Err(e) && e.0 == IncludeErrorKind::IncludeCycle,
{
    let p = seq![x];
    let q = p.push(y);
    let known = Set::<Seq<char>>::empty() + declared_repos(store[x]);
    assert(p.last() == x);
    assert(q.last() == y);
    assert(q.contains(x)) by {
        assert(q[0] == x);
    }
    let known2 = known + declared_repos(store[y]);
    assert(expand_includes(store, q, known2, 0) matches Err(e) && e.0 == IncludeErrorKind::IncludeCycle);
    assert(expand_doc(store, q, known) matches Err(e) && e.0 == IncludeErrorKind::IncludeCycle);
    assert(!p.contains(y)) by {
        if p.contains(y) {
            assert(p[0] == y);
        }
    }
    assert(expand_includes(store, p, known, 0) matches Err(e) && e.0 == IncludeErrorKind::IncludeCycle);
}

/// An entry that names a repository not known at that point is rejected as
/// unresolved; nothing is expanded or merged.
pub proof fn lemma_unknown_repo_rejected(store: Seq<Document>, root: int)
    requires
        0 <= root < store.len(),
        store[root].config.header.includes@.len() > 0,
        store[root].config.header.includes@[0].repo@.len() > 0,
        !store[root].config.repos@.contains_key(store[root].config.header.includes@[0].repo@),
    ensures
        expansion_of(store, root) == Expansion::Err(
            (
                IncludeErrorKind::UnresolvedRepo,
                store[root].config.header.includes@[0].repo@,
                store[root].config.header.includes@[0].file@,
            ),
        ),
{
    let p = seq![root];
    assert(p.last() == root);
    let known = Set::<Seq<char>>::empty() + declared_repos(store[root]);
    assert(!known.contains(store[root].config.header.includes@[0].repo@));
}

/// A path of distinct documents that is as long as the store holds every
/// document. Paths only grow by documents not yet on them, so the length
/// test in `expand_includes` rejects nothing but a revisit.
pub proof fn lemma_full_path_repeats(path: Seq<int>, n: int, k: int)
    requires
        path.no_duplicates(),
        forall|i: int| 0 <= i < path.len() ==> 0 <= #[trigger] path[i] < n,
        path.len() >= n,
        0 <= k < n,
    ensures
        path.contains(k),
{
    if !path.contains(k) {
        path.unique_seq_to_set();
        vstd::set_lib::lemma_int_range(0, n);
        let r = vstd::set_lib::set_int_range(0, n).remove(k);
        assert(path.to_set().subset_of(r));
        vstd::set_lib::lemma_len_subset(path.to_set(), r);
    }
}

/// Wherever in the expansion an entry is reached that names a repository
/// not known at that point, that entry fails as unresolved.
pub proof fn lemma_unresolved_entry_rejected(
    store: Seq<Document>,
    path: Seq<int>,
    known: Set<Seq<char>>,
    i: int,
)
    requires
        0 <= i < store[path.last()].config.header.includes@.len(),
        store[path.last()].config.header.includes@[i].repo@.len() > 0,
        !known.contains(store[path.last()].config.header.includes@[i].repo@),
    ensures
        expand_includes(store, path, known, i) == Expansion::Err(
            (
                IncludeErrorKind::UnresolvedRepo,
                store[path.last()].config.header.includes@[i].repo@,
                store[path.last()].config.header.includes@[i].file@,
            ),
        ),
{
}

/// Wherever in the expansion an entry is reached that resolves to a
/// document already being expanded, that entry fails as a cycle.
pub proof fn lemma_revisit_rejected(store: Seq<Document>, path: Seq<int>, known: Set<Seq<char>>, i: int)
    requires
        0 <= i < store[path.last()].config.header.includes@.len(),
        store[path.last()].config.header.includes@[i].repo@.len() == 0 || known.contains(
            store[path.last()].config.header.includes@[i].repo@,
        ),
        find_doc(
            store,
            source_repo(store[path.last()], i),
            store[path.last()].config.header.includes@[i].file@,
        ) matches Some(k) && path.contains(k),
    ensures
        expand_includes(store, path, known, i) == Expansion::Err(
            (
                IncludeErrorKind::IncludeCycle,
                source_repo(store[path.last()], i),
                store[path.last()].config.header.includes@[i].file@,
            ),
        ),
{
}

/// A failure inside an included document fails the entry that includes it
/// with the same error, and so, entry by entry, reaches the root.
pub proof fn lemma_child_failure_propagates(
    store: Seq<Document>,
    path: Seq<int>,
    known: Set<Seq<char>>,
    i: int,
    k: int,
)
    requires
        0 <= i < store[path.last()].config.header.includes@.len(),
        store[path.last()].config.header.includes@[i].repo@.len() == 0 || known.contains(
            store[path.last()].config.header.includes@[i].repo@,
        ),
        find_doc(
            store,
            source_repo(store[path.last()], i),
            store[path.last()].config.header.includes@[i].file@,
        ) == Some(k),
        !path.contains(k),
        path.len() < store.len(),
        expand_doc(store, path.push(k), known) is Err,
    ensures
        expand_includes(store, path, known, i) == expand_doc(store, path.push(k), known),
{
}

} // verus!
