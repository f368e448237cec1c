use bake_kas::merge::merge_repo;
use bake_kas::text::{join_words, split_words};
use bake_kas::{
    merge_documents, resolve_config, resolve_order, resolve_repos, BuildSystem, Document,
    EnvOverrides, Header, HeaderInclude, IncludeErrorKind, KasContextBuilder, KasProjectConfig,
    KeyMap, ProjectConfig, Repo, RepoPatch, RepoVcs,
};

fn s(x: &str) -> String {
    x.to_string()
}

fn doc(repo: &str, file: &str, config: ProjectConfig) -> Document {
    Document { repo: s(repo), file: s(file), config }
}

fn poky_config() -> ProjectConfig {
    let mut config = ProjectConfig::new(Header::new(s("14")));
    config.target.push(s("zlib-native"));
    let mut repo = Repo::new();
    repo.url = Some(s("https://git.yoctoproject.org/poky.git"));
    repo.commit = Some(s("387ab5f18b17c3af3e9e30dc58584641a70f359f"));
    repo.layers.insert(s("meta"), None);
    repo.layers.insert(s("meta-poky"), None);
    config.repos.insert(s("poky"), Some(repo));
    config
}

fn with_machine(machine: &str) -> ProjectConfig {
    let mut config = ProjectConfig::new(Header::new(s("14")));
    config.machine = Some(s(machine));
    config
}

fn local_entry(file: &str) -> HeaderInclude {
    HeaderInclude::local(file)
}

#[test]
fn hand_built_sample_fields() {
    let config = poky_config();

    assert_eq!(config.header.version, "14");
    assert_eq!(config.target, ["zlib-native"]);

    assert_eq!(config.repos.len(), 1);
    match config.repos.get("poky") {
        Some(Some(repo)) => {
            assert_eq!(repo.url.as_deref(), Some("https://git.yoctoproject.org/poky.git"));
            assert_eq!(
                repo.commit.as_deref(),
                Some("387ab5f18b17c3af3e9e30dc58584641a70f359f")
            );
            assert_eq!(repo.layers.len(), 2);
            assert!(matches!(repo.layers.get("meta"), Some(None)));
            assert!(matches!(repo.layers.get("meta-poky"), Some(None)));
        }
        _ => panic!("repo poky is missing"),
    }
}

#[test]
fn sample_document_resolves() {
    let store = vec![doc("proj", "poky.yml", poky_config())];
    let config = resolve_config(&store, 0, &EnvOverrides::none()).unwrap();
    assert_eq!(config.target, ["zlib-native"]);
    assert_eq!(config.header.version, "14");
    let repos = resolve_repos(&config, "/work").unwrap();
    assert_eq!(repos.len(), 1);
    assert_eq!(repos[0].id, "poky");
    assert_eq!(repos[0].name, "poky");
    assert_eq!(repos[0].path, "/work/poky");
    assert_eq!(repos[0].url.as_deref(), Some("https://git.yoctoproject.org/poky.git"));
    assert_eq!(repos[0].layers, ["/work/poky/meta", "/work/poky/meta-poky"]);
    assert!(repos[0].patches.is_empty());
}

#[test]
fn later_document_wins_scalar() {
    let a = doc("proj", "a.yml", with_machine("qemuarm"));
    let b = doc("proj", "b.yml", with_machine("qemux86-64"));
    let store = vec![a, b];
    let ab = merge_documents(&store, &vec![0, 1]);
    assert_eq!(ab.machine.as_deref(), Some("qemux86-64"));
    let ba = merge_documents(&store, &vec![1, 0]);
    assert_eq!(ba.machine.as_deref(), Some("qemuarm"));
}

#[test]
fn unset_scalar_keeps_earlier_value() {
    let a = doc("proj", "a.yml", with_machine("qemuarm"));
    let mut other = ProjectConfig::new(Header::new(s("14")));
    other.distro = Some(s("poky"));
    let b = doc("proj", "b.yml", other);
    let store = vec![a, b];
    let merged = merge_documents(&store, &vec![0, 1]);
    assert_eq!(merged.machine.as_deref(), Some("qemuarm"));
    assert_eq!(merged.distro.as_deref(), Some("poky"));
    assert!(merged.header.includes.is_empty());
}

#[test]
fn target_replaced_not_appended() {
    let mut a = ProjectConfig::new(Header::new(s("14")));
    a.target.push(s("x"));
    a.target.push(s("y"));
    let mut b = ProjectConfig::new(Header::new(s("14")));
    b.target.push(s("z"));
    let store = vec![doc("p", "a.yml", a), doc("p", "b.yml", b)];
    let merged = merge_documents(&store, &vec![0, 1]);
    assert_eq!(merged.target, ["z"]);
}

#[test]
fn env_map_later_entry_overrides() {
    let mut a = ProjectConfig::new(Header::new(s("14")));
    a.env.insert(s("FOO"), Some(s("1")));
    a.env.insert(s("BAR"), None);
    let mut b = ProjectConfig::new(Header::new(s("14")));
    b.env.insert(s("FOO"), None);
    b.env.insert(s("BAZ"), Some(s("3")));
    let store = vec![doc("p", "a.yml", a), doc("p", "b.yml", b)];
    let merged = merge_documents(&store, &vec![0, 1]);
    assert_eq!(merged.env.len(), 3);
    assert_eq!(merged.env.get("FOO"), Some(&None));
    assert_eq!(merged.env.get("BAR"), Some(&None));
    assert_eq!(merged.env.get("BAZ"), Some(&Some(s("3"))));
    assert_eq!(merged.env.key(0), "BAR");
    assert_eq!(merged.env.key(1), "BAZ");
    assert_eq!(merged.env.key(2), "FOO");
}

#[test]
fn repo_fields_merge_per_field() {
    let mut base = Repo::new();
    base.url = Some(s("https://example.com/a.git"));
    base.commit = Some(s("abc"));
    base.layers.insert(s("meta"), None);
    let mut over = Repo::new();
    over.commit = Some(s("def"));
    over.layers.insert(s("meta"), Some(s("disabled")));
    over.layers.insert(s("meta-extra"), None);
    let merged = merge_repo(&base, &over);
    assert_eq!(merged.url.as_deref(), Some("https://example.com/a.git"));
    assert_eq!(merged.commit.as_deref(), Some("def"));
    assert_eq!(merged.layers.len(), 2);
    assert_eq!(merged.layers.get("meta"), Some(&Some(s("disabled"))));
}

#[test]
fn include_cycle_rejected() {
    let mut x = ProjectConfig::new(Header::new(s("14")));
    x.header.includes.push(local_entry("y.yml"));
    let mut y = ProjectConfig::new(Header::new(s("14")));
    y.header.includes.push(local_entry("x.yml"));
    let store = vec![doc("proj", "x.yml", x), doc("proj", "y.yml", y)];
    let err = resolve_order(&store, 0).unwrap_err();
    assert_eq!(err.kind, IncludeErrorKind::IncludeCycle);
    assert_eq!(err.file, "x.yml");
    let err = resolve_config(&store, 1, &EnvOverrides::none()).unwrap_err();
    assert_eq!(err.kind, IncludeErrorKind::IncludeCycle);
}

#[test]
fn self_include_rejected() {
    let mut x = ProjectConfig::new(Header::new(s("14")));
    x.header.includes.push(local_entry("x.yml"));
    let store = vec![doc("proj", "x.yml", x)];
    let err = resolve_order(&store, 0).unwrap_err();
    assert_eq!(err.kind, IncludeErrorKind::IncludeCycle);
}

#[test]
fn unknown_repo_rejected() {
    let mut root = with_machine("qemuarm");
    root.header.includes.push(HeaderInclude { repo: s("meta-foo"), file: s("foo.yml") });
    let store = vec![doc("proj", "root.yml", root), doc("meta-foo", "foo.yml", with_machine("x"))];
    let err = resolve_config(&store, 0, &EnvOverrides::none()).unwrap_err();
    assert_eq!(err.kind, IncludeErrorKind::UnresolvedRepo);
    assert_eq!(err.repo, "meta-foo");
    assert_eq!(err.file, "foo.yml");
}

#[test]
fn declared_repo_resolves_and_missing_document_reported() {
    let mut root = ProjectConfig::new(Header::new(s("14")));
    root.header.includes.push(HeaderInclude { repo: s("meta-foo"), file: s("foo.yml") });
    root.repos.insert(s("meta-foo"), None);
    let store = vec![doc("proj", "root.yml", root)];
    let err = resolve_order(&store, 0).unwrap_err();
    assert_eq!(err.kind, IncludeErrorKind::MissingDocument);
    assert_eq!(err.repo, "meta-foo");
}

#[test]
fn includes_expand_depth_first() {
    let mut root = ProjectConfig::new(Header::new(s("14")));
    root.header.includes.push(local_entry("a.yml"));
    root.header.includes.push(HeaderInclude { repo: s("other"), file: s("b.yml") });
    let mut a = ProjectConfig::new(Header::new(s("14")));
    a.header.includes.push(local_entry("c.yml"));
    a.repos.insert(s("other"), None);
    let c = ProjectConfig::new(Header::new(s("14")));
    let b = ProjectConfig::new(Header::new(s("14")));
    let store = vec![
        doc("proj", "root.yml", root),
        doc("proj", "a.yml", a),
        doc("other", "b.yml", b),
        doc("proj", "c.yml", c),
    ];
    assert_eq!(resolve_order(&store, 0).unwrap(), vec![3, 1, 2, 0]);
}

#[test]
fn env_target_replaces_merged_targets() {
    let mut a = ProjectConfig::new(Header::new(s("14")));
    a.target.push(s("a"));
    let store = vec![doc("p", "a.yml", a)];
    let mut env = EnvOverrides::none();
    env.target = Some(s("b c"));
    let config = resolve_config(&store, 0, &env).unwrap();
    assert_eq!(config.target, ["b", "c"]);
}

#[test]
fn empty_env_values_leave_config() {
    let mut a = with_machine("qemuarm");
    a.target.push(s("a"));
    let store = vec![doc("p", "a.yml", a)];
    let mut env = EnvOverrides::none();
    env.machine = Some(s(""));
    env.target = Some(s(""));
    env.distro = Some(s("poky"));
    env.task = Some(s("fetch"));
    let config = resolve_config(&store, 0, &env).unwrap();
    assert_eq!(config.machine.as_deref(), Some("qemuarm"));
    assert_eq!(config.target, ["a"]);
    assert_eq!(config.distro.as_deref(), Some("poky"));
    assert_eq!(config.task.as_deref(), Some("fetch"));
}

#[test]
fn patches_apply_in_id_order() {
    let mut a = ProjectConfig::new(Header::new(s("14")));
    let mut ra = Repo::new();
    ra.patches.insert(s("20-x"), RepoPatch { repo: s("poky"), path: s("x.patch") });
    a.repos.insert(s("poky"), Some(ra));
    let mut b = ProjectConfig::new(Header::new(s("14")));
    let mut rb = Repo::new();
    rb.patches.insert(s("10-y"), RepoPatch { repo: s("poky"), path: s("y.patch") });
    b.repos.insert(s("poky"), Some(rb));
    let store = vec![doc("p", "a.yml", a), doc("p", "b.yml", b)];
    let merged = merge_documents(&store, &vec![0, 1]);
    let repos = resolve_repos(&merged, "/work").unwrap();
    let ids: Vec<&str> = repos[0].patches.iter().map(|p| p.id.as_str()).collect();
    assert_eq!(ids, ["10-y", "20-x"]);
    assert_eq!(repos[0].patches[0].file, "/work/poky/y.patch");
}

#[test]
fn unknown_patch_repo_rejected() {
    let mut config = ProjectConfig::new(Header::new(s("14")));
    let mut repo = Repo::new();
    repo.patches.insert(s("01-fix"), RepoPatch { repo: s("nowhere"), path: s("fix.patch") });
    config.repos.insert(s("poky"), Some(repo));
    let err = resolve_repos(&config, "/work").unwrap_err();
    assert_eq!(err.repo, "poky");
    assert_eq!(err.patch, "01-fix");
    assert_eq!(err.patch_repo, "nowhere");
}

#[test]
fn repo_without_layers_uses_root() {
    let mut config = ProjectConfig::new(Header::new(s("14")));
    config.repos.insert(s("bare"), None);
    let mut named = Repo::new();
    named.name = Some(s("meta-named"));
    config.repos.insert(s("named"), Some(named));
    let repos = resolve_repos(&config, "/work/").unwrap();
    assert_eq!(repos[0].id, "bare");
    assert_eq!(repos[0].layers, ["/work/bare"]);
    assert_eq!(repos[1].path, "/work/meta-named");
    assert_eq!(repos[1].layers, ["/work/meta-named"]);
}

#[test]
fn layer_markers_and_paths() {
    let mut config = ProjectConfig::new(Header::new(s("14")));
    let mut repo = Repo::new();
    repo.path = Some(s("sources/poky"));
    repo.layers.insert(s("."), None);
    repo.layers.insert(s("meta-off"), Some(s("no")));
    repo.layers.insert(s("meta-on"), Some(s("yes")));
    config.repos.insert(s("poky"), Some(repo));
    let mut abs = Repo::new();
    abs.path = Some(s("/opt/layers"));
    config.repos.insert(s("abs"), Some(abs));
    let repos = resolve_repos(&config, "/work").unwrap();
    assert_eq!(repos[0].path, "/opt/layers");
    assert_eq!(repos[1].path, "/work/sources/poky");
    assert_eq!(repos[1].layers, ["/work/sources/poky", "/work/sources/poky/meta-on"]);
}

#[test]
fn build_system_names() {
    assert_eq!(BuildSystem::parse("OE"), Ok(BuildSystem::OpenEmbedded));
    assert_eq!(BuildSystem::parse("OpenEmbedded"), Ok(BuildSystem::OpenEmbedded));
    assert_eq!(BuildSystem::parse("ISAR"), Ok(BuildSystem::Isar));
    let err = BuildSystem::parse("yocto").unwrap_err();
    assert_eq!(err.field, "build_system");
    assert_eq!(err.value, "yocto");
    assert_eq!(BuildSystem::Isar.name(), "isar");
    assert_eq!(BuildSystem::parse(BuildSystem::OpenEmbedded.name()), Ok(BuildSystem::OpenEmbedded));
}

#[test]
fn vcs_names() {
    assert_eq!(RepoVcs::parse("Git"), Ok(RepoVcs::Git));
    assert_eq!(RepoVcs::parse("HG"), Ok(RepoVcs::Hg));
    assert_eq!(RepoVcs::parse("svn").unwrap_err().field, "vcs");
    assert_eq!(RepoVcs::from_lowered("hg"), Ok(RepoVcs::Hg));
    assert!(RepoVcs::from_lowered("HG").is_err());
    assert_eq!(RepoVcs::parse(RepoVcs::Hg.name()), Ok(RepoVcs::Hg));
}

#[test]
fn words_split_and_join() {
    assert_eq!(split_words("  a  b c "), ["a", "b", "c"]);
    assert!(split_words("").is_empty());
    let items = vec![s("core-image-minimal"), s("zlib-native")];
    let joined = join_words(&items);
    assert_eq!(joined, "core-image-minimal zlib-native");
    assert_eq!(split_words(&joined), items);
}

#[test]
fn header_entry_from_str() {
    let entry: HeaderInclude = "kas/common.yml".parse().unwrap();
    assert_eq!(entry.repo, "");
    assert_eq!(entry.file, "kas/common.yml");
}

#[test]
fn keymap_keeps_ascending_keys() {
    let mut m: KeyMap<u8> = KeyMap::new();
    m.insert(s("b"), 1);
    m.insert(s("a"), 2);
    m.insert(s("c"), 3);
    m.insert(s("b"), 4);
    assert_eq!(m.len(), 3);
    assert_eq!(m.key(0), "a");
    assert_eq!(m.key(1), "b");
    assert_eq!(*m.value(1), 4);
    assert_eq!(m.get("c"), Some(&3));
    assert_eq!(m.get("d"), None);
}

#[test]
fn context_builder_defaults_and_errors() {
    let ctx = KasContextBuilder::new(s("/work"))
        .unwrap()
        .update(true)
        .force_checkout(false)
        .env(s("SSTATE_DIR"), s("/cache/sstate"))
        .build();
    assert_eq!(ctx.kas_work_dir, "/work");
    assert_eq!(ctx.build_dir, "/work/build");
    assert_eq!(ctx.kas_repo_ref_dir, None);
    assert_eq!(ctx.update, Some(true));
    assert_eq!(ctx.force_checkout, Some(false));
    assert_eq!(ctx.environment.get("SSTATE_DIR"), Some(&s("/cache/sstate")));

    let err = KasContextBuilder::new(s("relative/dir")).unwrap_err();
    assert_eq!(err.path, "relative/dir");

    let builder = KasContextBuilder::new(s("/work")).unwrap();
    let ctx = builder
        .with_build_dir(s("/elsewhere/build"))
        .unwrap()
        .with_repo_ref_dir(s("/refs"))
        .unwrap()
        .build();
    assert_eq!(ctx.build_dir, "/elsewhere/build");
    assert_eq!(ctx.kas_repo_ref_dir.as_deref(), Some("/refs"));
    let builder = KasContextBuilder::new(s("/work")).unwrap();
    assert_eq!(builder.with_repo_ref_dir(s("refs")).unwrap_err().path, "refs");
}

#[test]
fn project_config_holds_loaded_document() {
    let mut project = KasProjectConfig::new(s("kas.yml"), Some(s("zlib-native")), None, false);
    assert!(project.get_config().is_none());
    project.set_config(poky_config());
    assert_eq!(project.get_config().unwrap().target, ["zlib-native"]);
    assert_eq!(project.target.as_deref(), Some("zlib-native"));
}

#[test]
fn defaults_fill_unset_fields() {
    let store = vec![doc("p", "a.yml", ProjectConfig::new(Header::new(s("14"))))];
    let config = resolve_config(&store, 0, &EnvOverrides::none()).unwrap();
    assert_eq!(config.machine.as_deref(), Some("qemux86-64"));
    assert_eq!(config.distro.as_deref(), Some("poky"));
    assert_eq!(config.target, ["core-image-minimal"]);
    assert_eq!(config.task.as_deref(), Some("build"));
}

#[test]
fn override_beats_document_beats_default() {
    let mut a = with_machine("qemuarm");
    a.distro = Some(s("isar-distro"));
    let store = vec![doc("p", "a.yml", a)];
    let mut env = EnvOverrides::none();
    env.machine = Some(s("qemuriscv64"));
    env.target = Some(s("   "));
    let config = resolve_config(&store, 0, &env).unwrap();
    assert_eq!(config.machine.as_deref(), Some("qemuriscv64"));
    assert_eq!(config.distro.as_deref(), Some("isar-distro"));
    assert_eq!(config.target, ["core-image-minimal"]);
    assert_eq!(config.task.as_deref(), Some("build"));
}
