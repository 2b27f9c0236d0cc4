use linguist::blob::FileBlob;
use linguist::language::Registry;
use linguist::repository::{CacheStep, Change, ChangeKind, DirectoryAnalyzer, FileStatsCache, LanguageStats, Repository};

fn registry() -> Registry {
    Registry::builtin().unwrap()
}

fn bytes(n: usize, seed: &str) -> Vec<u8> {
    let mut v = seed.as_bytes().to_vec();
    v.resize(n, b' ');
    v
}

fn tree() -> Vec<FileBlob> {
    vec![
        FileBlob::from_data("main.rs", bytes(40, "fn main() {}")),
        FileBlob::from_data("src/lib.rs", bytes(50, "pub fn f() {}")),
        FileBlob::from_data("app.js", bytes(30, "let x = 1;")),
        FileBlob::from_data("README.md", bytes(200, "# Title")),
    ]
}

fn total_of(stats: &LanguageStats, lang: &str) -> Option<usize> {
    stats.language_breakdown.iter().find(|(l, _)| l == lang).map(|(_, n)| *n)
}

fn files_of(stats: &LanguageStats, lang: &str) -> Option<Vec<String>> {
    stats.file_breakdown.iter().find(|(l, _)| l == lang).map(|(_, f)| f.clone())
}

#[test]
fn test_directory_analyzer() {
    let reg = registry();
    let files = vec![
        FileBlob::from_data("main.rs", b"fn main() { println!(\"Hello, world!\"); }".to_vec()),
        FileBlob::from_data("script.js", b"console.log('Hello, world!');".to_vec()),
        FileBlob::from_data("hello.py", b"print('Hello, world!')".to_vec()),
        FileBlob::from_data("src/lib.rs", b"pub fn hello() -> &'static str { \"Hello, world!\" }".to_vec()),
    ];
    let mut analyzer = DirectoryAnalyzer::new("/tmp/project");
    let stats = analyzer.analyze(&reg, &files).unwrap();

    assert!(!stats.language_breakdown.is_empty());
    assert!(stats.total_size > 0);
    assert!(stats.language.is_some());
    assert!(!stats.file_breakdown.is_empty());

    let rust_files = files_of(&stats, "Rust").unwrap();
    assert!(rust_files.contains(&"main.rs".to_string()) || rust_files.contains(&"src/lib.rs".to_string()));
    let js_files = files_of(&stats, "JavaScript").unwrap();
    assert!(js_files.contains(&"script.js".to_string()));
    let py_files = files_of(&stats, "Python").unwrap();
    assert!(py_files.contains(&"hello.py".to_string()));
}

#[test]
fn scenario_aggregator_rollup() {
    let reg = registry();
    let mut analyzer = DirectoryAnalyzer::new(".");
    let stats = analyzer.analyze(&reg, &tree()).unwrap();
    assert_eq!(stats.language_breakdown, vec![("JavaScript".to_string(), 30), ("Rust".to_string(), 90)]);
    assert_eq!(stats.language.as_deref(), Some("Rust"));
    assert_eq!(stats.total_size, 120);
    assert_eq!(files_of(&stats, "Rust").unwrap(), vec!["main.rs".to_string(), "src/lib.rs".to_string()]);
    assert_eq!(analyzer.size(), Some(Some(120)).flatten().map(|n| n));
    assert_eq!(analyzer.language(), Some(Some("Rust".to_string())));
    assert_eq!(analyzer.languages().unwrap().len(), 2);
    assert_eq!(analyzer.breakdown_by_file().unwrap().len(), 2);
    assert_eq!(analyzer.get_cache().unwrap().len(), 3);
    assert_eq!(analyzer.root(), ".");
}

#[test]
fn queries_before_analysis_are_empty() {
    let analyzer = DirectoryAnalyzer::new(".");
    assert!(analyzer.stats().is_none());
    assert!(analyzer.languages().is_none());
    assert!(analyzer.get_cache().is_none());
}

#[test]
fn rollup_into_group_and_ties() {
    let reg = registry();
    let files = vec![
        FileBlob::from_data("a.jsx", bytes(10, "<A/>")),
        FileBlob::from_data("b.js", bytes(10, "let b;")),
        FileBlob::from_data("c.py", bytes(20, "x = 1")),
    ];
    let mut analyzer = DirectoryAnalyzer::new(".");
    let stats = analyzer.analyze(&reg, &files).unwrap();
    assert_eq!(total_of(&stats, "JavaScript"), Some(20));
    assert_eq!(total_of(&stats, "JSX"), None);
    assert_eq!(stats.language.as_deref(), Some("JavaScript"));
}

#[test]
fn shuffled_walk_gives_same_totals() {
    let reg = registry();
    let mut forward = DirectoryAnalyzer::new(".");
    let a = forward.analyze(&reg, &tree()).unwrap();
    let mut reversed_files = tree();
    reversed_files.reverse();
    let mut backward = DirectoryAnalyzer::new(".");
    let b = backward.analyze(&reg, &reversed_files).unwrap();
    assert_eq!(a.language_breakdown, b.language_breakdown);
    assert_eq!(a.file_breakdown, b.file_breakdown);
    assert_eq!(a.language, b.language);
}

#[test]
fn analysing_twice_gives_the_same_result() {
    let reg = registry();
    let mut analyzer = DirectoryAnalyzer::new(".");
    let a = analyzer.analyze(&reg, &tree()).unwrap();
    let b = analyzer.analyze(&reg, &tree()).unwrap();
    assert_eq!(a.language_breakdown, b.language_breakdown);
    assert_eq!(a.total_size, b.total_size);
    let mut cache = FileStatsCache::new();
    cache.record("x.rs".to_string(), "Rust".to_string(), 5);
    cache.record("x.rs".to_string(), "Rust".to_string(), 5);
    assert_eq!(cache.len(), 1);
}

#[test]
fn cache_record_and_remove_keep_paths_sorted() {
    let mut cache = FileStatsCache::new();
    cache.record("b".to_string(), "Rust".to_string(), 1);
    cache.record("a".to_string(), "Go".to_string(), 2);
    cache.record("c".to_string(), "Go".to_string(), 3);
    cache.record("b".to_string(), "C".to_string(), 4);
    let paths: Vec<&str> = cache.entries().iter().map(|(p, _)| p.as_str()).collect();
    assert_eq!(paths, vec!["a", "b", "c"]);
    assert_eq!(cache.entries()[1].1, ("C".to_string(), 4));
    cache.remove(&"b".to_string());
    cache.remove(&"zzz".to_string());
    assert_eq!(cache.len(), 2);
    let stats = cache.stats().unwrap();
    assert_eq!(stats.language_breakdown, vec![("Go".to_string(), 5)]);
    let mut huge = FileStatsCache::new();
    huge.record("a".to_string(), "Go".to_string(), usize::MAX);
    huge.record("b".to_string(), "Go".to_string(), 1);
    assert!(huge.stats().is_none());
}

fn snapshot_with_cache(reg: &Registry) -> FileStatsCache {
    let mut repo = Repository::new("c1", None);
    assert_eq!(repo.next_step(), CacheStep::NeedTree);
    repo.supply_tree(reg, 4, &tree());
    assert_eq!(repo.next_step(), CacheStep::Ready);
    repo.get_cache().unwrap().clone_cache()
}

#[test]
fn snapshot_full_walk_and_ceiling() {
    let reg = registry();
    let cache = snapshot_with_cache(&reg);
    assert_eq!(cache.len(), 3);
    let mut small = Repository::new("c1", Some(3));
    small.supply_tree(&reg, 4, &tree());
    assert_eq!(small.get_cache().unwrap().len(), 0);
    assert_eq!(small.languages(), Some(vec![]));
    assert_eq!(small.language(), Some(None));
}

#[test]
fn same_snapshot_reuses_cache() {
    let reg = registry();
    let cache = snapshot_with_cache(&reg);
    let mut repo = Repository::incremental("c1", "c1", cache, None);
    assert_eq!(repo.next_step(), CacheStep::Ready);
    assert_eq!(repo.size(), Some(120));
}

#[test]
fn empty_delta_keeps_cache() {
    let reg = registry();
    let cache = snapshot_with_cache(&reg);
    let before: Vec<(String, (String, usize))> = cache.entries().to_vec();
    let mut repo = Repository::incremental("c2", "c1", cache, None);
    assert_eq!(repo.next_step(), CacheStep::NeedChanges);
    assert!(repo.supply_changes(&reg, 4, &vec![]));
    assert_eq!(repo.get_cache().unwrap().entries().to_vec(), before);
}

#[test]
fn delta_updates_cache() {
    let reg = registry();
    let cache = snapshot_with_cache(&reg);
    let mut repo = Repository::incremental("c2", "c1", cache, None);
    let changes = vec![
        Change { kind: ChangeKind::Deleted, old_path: "app.js".to_string(), mode: 0, blob: FileBlob::from_data("app.js", vec![]) },
        Change { kind: ChangeKind::Added, old_path: "tool.py".to_string(), mode: 0o100644, blob: FileBlob::from_data("tool.py", bytes(25, "x = 1")) },
        Change { kind: ChangeKind::Renamed, old_path: "main.rs".to_string(), mode: 0o100644, blob: FileBlob::from_data("bin/main.rs", bytes(40, "fn main() {}")) },
        Change { kind: ChangeKind::Added, old_path: "lib".to_string(), mode: 0o160000, blob: FileBlob::from_data("lib", vec![]) },
    ];
    assert!(repo.supply_changes(&reg, 5, &changes));
    let stats = repo.stats().unwrap();
    assert_eq!(stats.language_breakdown, vec![("Python".to_string(), 25), ("Rust".to_string(), 90)]);
    assert_eq!(files_of(&stats, "Rust").unwrap(), vec!["bin/main.rs".to_string(), "src/lib.rs".to_string()]);
}

#[test]
fn attributes_change_forces_full_walk() {
    let reg = registry();
    let cache = snapshot_with_cache(&reg);
    let mut repo = Repository::incremental("c2", "c1", cache, None);
    let changes = vec![Change {
        kind: ChangeKind::Modified,
        old_path: "sub/.gitattributes".to_string(),
        mode: 0o100644,
        blob: FileBlob::from_data("sub/.gitattributes", b"*.rs linguist-vendored".to_vec()),
    }];
    assert!(!repo.supply_changes(&reg, 4, &changes));
    assert!(repo.get_cache().is_none());
    assert_eq!(repo.next_step(), CacheStep::NeedTree);
    repo.supply_tree(&reg, 4, &tree());
    assert_eq!(repo.next_step(), CacheStep::Ready);
    assert_eq!(repo.size(), Some(120));
}

#[test]
fn full_delta_matches_full_walk() {
    let reg = registry();
    let cache = snapshot_with_cache(&reg);
    let old_paths: Vec<String> = cache.entries().iter().map(|(p, _)| p.clone()).collect();
    let mut changes: Vec<Change> = old_paths
        .iter()
        .map(|p| Change { kind: ChangeKind::Deleted, old_path: p.clone(), mode: 0, blob: FileBlob::from_data(p, vec![]) })
        .collect();
    let new_tree = vec![
        FileBlob::from_data("x.py", bytes(10, "x = 1")),
        FileBlob::from_data("main.rs", bytes(40, "fn main() {}")),
    ];
    for f in &new_tree {
        changes.push(Change {
            kind: ChangeKind::Added,
            old_path: f.name().to_string(),
            mode: 0o100644,
            blob: FileBlob::from_data(f.name(), f.data().to_vec()),
        });
    }
    let mut inc = Repository::incremental("c3", "c1", cache, None);
    assert!(inc.supply_changes(&reg, 2, &changes));
    let mut full = Repository::new("c3", None);
    full.supply_tree(&reg, 2, &new_tree);
    assert_eq!(
        inc.get_cache().unwrap().entries().to_vec(),
        full.get_cache().unwrap().entries().to_vec()
    );
}

#[test]
fn submodules_do_not_count_on_a_full_walk() {
    let reg = registry();
    let mut files = tree();
    files.push(FileBlob::from_entry("third/lib.rs", bytes(70, "fn x() {}"), 0o160000));
    let mut repo = Repository::new("c1", None);
    repo.supply_tree(&reg, 5, &files);
    assert_eq!(repo.size(), Some(120));
}
