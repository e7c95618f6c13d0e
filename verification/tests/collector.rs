use composition::collector::{
    check_pruned, filter_entries, filter_file, get_all_entries, has_tracked_extension,
    should_traverse_directory, tracked_extension_set,
};
use composition::config::{Config, TrackedLanguage};
use composition::resolver::{build_gitignore_cache, GitignoreCache};
use composition::walk::{check_entry_name, check_preorder, EntryKind, Walk, WalkEntry};

fn language(display: &str, extensions: &[&str]) -> TrackedLanguage {
    TrackedLanguage {
        display: display.to_string(),
        extensions: extensions.iter().map(|e| e.to_string()).collect(),
        color: None,
        excluded_patterns: Vec::new(),
        compiled_excluded_patterns: Vec::new(),
    }
}

fn config() -> Config {
    Config {
        use_color: false,
        respect_gitignore: true,
        ignore_dotfolders: true,
        ignored_directories: vec!["target".to_string(), "node_modules".to_string()],
        ignore_dotfiles: true,
        ignored_files: vec!["package-lock.json".to_string(), "skip.rs".to_string()],
        ignore_empty_lines: true,
        excluded_patterns: Vec::new(),
        languages: vec![language("Rust", &["rs"]), language("Web", &["HTML", "Json"])],
        compiled_excluded_patterns: Vec::new(),
    }
}

fn entry(path: &str, depth: usize, kind: EntryKind, ignore_file: Option<&str>) -> WalkEntry {
    WalkEntry {
        path: path.to_string(),
        name: path.rsplit('/').next().expect("a name").to_string(),
        depth,
        kind,
        ignore_file: ignore_file.map(|text| text.to_string()),
    }
}

#[test]
fn traversal_enters_what_is_not_pruned() {
    let ignored = vec!["target".to_string()];
    let d = EntryKind::Directory;
    assert!(should_traverse_directory("src", d, false, true, &ignored));
    assert!(!should_traverse_directory("target", d, false, true, &ignored));
    assert!(!should_traverse_directory("target", d, false, false, &ignored));
    assert!(!should_traverse_directory(".git", d, false, true, &ignored));
    assert!(should_traverse_directory(".git", d, false, false, &ignored));
    assert!(should_traverse_directory("Target", d, false, true, &ignored));
}

#[test]
fn traversal_always_enters_the_root() {
    let ignored = vec!["target".to_string(), ".".to_string()];
    assert!(should_traverse_directory("target", EntryKind::Directory, true, true, &ignored));
    assert!(should_traverse_directory(".hidden", EntryKind::Directory, true, true, &ignored));
    assert!(should_traverse_directory(".", EntryKind::Directory, true, true, &ignored));
}

#[test]
fn traversal_passes_what_is_no_directory() {
    let ignored = vec!["target".to_string()];
    assert!(should_traverse_directory("target", EntryKind::File, false, true, &ignored));
    assert!(should_traverse_directory(".env", EntryKind::File, false, true, &ignored));
    assert!(should_traverse_directory(".link", EntryKind::Other, false, true, &ignored));
}

#[test]
fn extension_set_is_lowered_and_flat() {
    let set = tracked_extension_set(&config().languages);
    assert_eq!(set, vec!["rs", "html", "json"]);
    assert_eq!(tracked_extension_set(&Vec::new()), Vec::<String>::new());
    let repeated = vec![language("A", &["x", "X"]), language("B", &[]), language("C", &["x"])];
    assert_eq!(tracked_extension_set(&repeated), vec!["x", "x", "x"]);
}

#[test]
fn tracked_extensions_are_found_in_any_case() {
    let set = tracked_extension_set(&config().languages);
    assert!(has_tracked_extension("main.rs", &set));
    assert!(has_tracked_extension("MAIN.RS", &set));
    assert!(has_tracked_extension("index.Html", &set));
    assert!(has_tracked_extension("a.b.json", &set));
    assert!(!has_tracked_extension("main.py", &set));
    assert!(!has_tracked_extension("rs", &set));
    assert!(!has_tracked_extension(".rs", &set));
    assert!(!has_tracked_extension("main.rs.", &set));
    assert!(!has_tracked_extension("", &set));
}

#[test]
fn filters_on_a_single_file() {
    let config = config();
    let set = tracked_extension_set(&config.languages);
    let walk = Walk::new(vec![
        entry("r", 0, EntryKind::Directory, Some("gen.rs\n")),
        entry("r/main.rs", 1, EntryKind::File, None),
        entry("r/.hidden.rs", 1, EntryKind::File, None),
        entry("r/skip.rs", 1, EntryKind::File, None),
        entry("r/notes.txt", 1, EntryKind::File, None),
        entry("r/gen.rs", 1, EntryKind::File, None),
        entry("r/README", 1, EntryKind::File, None),
    ])
    .expect("a pre-order listing");
    let cache = build_gitignore_cache(&walk);
    let kept: Vec<bool> = (1..walk.len()).map(|i| filter_file(&walk, i, &config, &set, &cache)).collect();
    assert_eq!(kept, vec![true, false, false, false, false, false]);

    let mut lenient = config;
    lenient.ignore_dotfiles = false;
    lenient.respect_gitignore = false;
    lenient.ignored_files = Vec::new();
    let kept: Vec<bool> = (1..walk.len()).map(|i| filter_file(&walk, i, &lenient, &set, &cache)).collect();
    assert_eq!(kept, vec![true, true, true, false, true, false]);
}

#[test]
fn only_files_are_eligible() {
    let config = config();
    let walk = Walk::new(vec![
        entry("r", 0, EntryKind::Directory, None),
        entry("r/dir.rs", 1, EntryKind::Directory, None),
        entry("r/dir.rs/a.rs", 2, EntryKind::File, None),
        entry("r/link.rs", 1, EntryKind::Other, None),
        entry("r/z.rs", 1, EntryKind::File, None),
    ])
    .expect("a pre-order listing");
    assert_eq!(get_all_entries(&config, &walk), vec![2, 4]);
}

#[test]
fn ignore_files_count_only_when_respected() {
    let mut config = config();
    let walk = Walk::new(vec![
        entry("r", 0, EntryKind::Directory, Some("*.rs\n!keep.rs\n")),
        entry("r/a.rs", 1, EntryKind::File, None),
        entry("r/keep.rs", 1, EntryKind::File, None),
        entry("r/sub", 1, EntryKind::Directory, Some("keep.rs\n!a.rs\n")),
        entry("r/sub/a.rs", 2, EntryKind::File, None),
        entry("r/sub/keep.rs", 2, EntryKind::File, None),
        entry("r/sub/page.html", 2, EntryKind::File, None),
    ])
    .expect("a pre-order listing");
    assert_eq!(get_all_entries(&config, &walk), vec![2, 4, 6]);
    config.respect_gitignore = false;
    assert_eq!(get_all_entries(&config, &walk), vec![1, 2, 4, 5, 6]);
}

#[test]
fn filtering_with_a_given_cache() {
    let config = config();
    let set = tracked_extension_set(&config.languages);
    let walk = Walk::new(vec![
        entry("r", 0, EntryKind::Directory, Some("*.rs\n")),
        entry("r/a.rs", 1, EntryKind::File, None),
        entry("r/b.json", 1, EntryKind::File, None),
    ])
    .expect("a pre-order listing");
    let built = build_gitignore_cache(&walk);
    assert_eq!(filter_entries(&walk, &config, &set, &built), vec![2]);
    let none = GitignoreCache::empty(walk.len());
    assert_eq!(filter_entries(&walk, &config, &set, &none), vec![1, 2]);
    assert_eq!(filter_entries(&walk, &config, &Vec::new(), &none), Vec::<usize>::new());
}

#[test]
fn a_single_file_as_root() {
    let config = config();
    let walk = Walk::new(vec![entry("main.rs", 0, EntryKind::File, None)]).expect("a listing");
    assert_eq!(get_all_entries(&config, &walk), vec![0]);
    let other = Walk::new(vec![entry("notes.txt", 0, EntryKind::File, None)]).expect("a listing");
    assert_eq!(get_all_entries(&config, &other), Vec::<usize>::new());
    let empty = Walk::new(Vec::new()).expect("an empty listing");
    assert_eq!(get_all_entries(&config, &empty), Vec::<usize>::new());
}

#[test]
fn entry_names() {
    assert!(check_entry_name("a"));
    assert!(check_entry_name(".git"));
    assert!(check_entry_name("a b"));
    assert!(!check_entry_name(""));
    assert!(!check_entry_name("a/b"));
    assert!(!check_entry_name("/"));
    assert!(!check_entry_name("a/"));
}

#[test]
fn listings_that_are_no_tree_are_refused() {
    let d = EntryKind::Directory;
    let f = EntryKind::File;
    // the root lies at depth 0
    assert!(!check_preorder(&vec![entry("r", 1, d, None)]));
    // nothing else does
    assert!(!check_preorder(&vec![entry("r", 0, d, None), entry("s", 0, d, None)]));
    // a level cannot be skipped
    assert!(!check_preorder(&vec![entry("r", 0, d, None), entry("r/a/b", 2, f, None)]));
    // only a directory holds entries
    assert!(!check_preorder(&vec![
        entry("r", 0, d, None),
        entry("r/a", 1, f, None),
        entry("r/a/b", 2, f, None)
    ]));
    assert!(!check_preorder(&vec![entry("r", 0, f, None), entry("r/a", 1, f, None)]));
    // names below the root are single components
    let mut slashed = entry("r/a", 1, f, None);
    slashed.name = "r/a".to_string();
    assert!(!check_preorder(&vec![entry("r", 0, d, None), slashed]));
    let mut unnamed = entry("r/a", 1, f, None);
    unnamed.name = String::new();
    assert!(!check_preorder(&vec![entry("r", 0, d, None), unnamed]));
    assert!(Walk::new(vec![entry("r", 1, d, None)]).is_none());
}

#[test]
fn listings_that_are_a_tree_are_taken() {
    let d = EntryKind::Directory;
    let f = EntryKind::File;
    assert!(check_preorder(&Vec::new()));
    let mut root = entry("/", 0, d, None);
    root.name = "/".to_string();
    let entries = vec![
        root,
        entry("/a", 1, d, None),
        entry("/a/b", 2, d, None),
        entry("/a/b/c", 3, f, None),
        entry("/a/d", 2, f, None),
        entry("/e", 1, d, None),
        entry("/f", 1, f, None),
    ];
    assert!(check_preorder(&entries));
    let walk = Walk::new(entries).expect("a pre-order listing");
    assert_eq!(walk.len(), 7);
    let parents: Vec<Option<usize>> = (0..walk.len()).map(|i| walk.parent(i)).collect();
    assert_eq!(parents, vec![None, Some(0), Some(1), Some(2), Some(1), Some(0), Some(0)]);
    assert_eq!(walk.entry(3).name, "c");
    assert_eq!(walk.entry(3).path, "/a/b/c");
}

#[test]
fn a_listing_with_a_pruned_directory_is_told() {
    let config = config();
    let kept = Walk::new(vec![
        entry("r", 0, EntryKind::Directory, None),
        entry("r/src", 1, EntryKind::Directory, None),
        entry("r/src/a.rs", 2, EntryKind::File, None),
        entry("r/target", 1, EntryKind::File, None),
        entry("r/.env", 1, EntryKind::File, None),
    ])
    .expect("a pre-order listing");
    assert!(check_pruned(&config, &kept));

    let named = Walk::new(vec![
        entry("r", 0, EntryKind::Directory, None),
        entry("r/target", 1, EntryKind::Directory, None),
        entry("r/target/a.rs", 2, EntryKind::File, None),
    ])
    .expect("a pre-order listing");
    assert!(!check_pruned(&config, &named));

    let dotted = Walk::new(vec![
        entry("r", 0, EntryKind::Directory, None),
        entry("r/a", 1, EntryKind::Directory, None),
        entry("r/a/.git", 2, EntryKind::Directory, None),
    ])
    .expect("a pre-order listing");
    assert!(!check_pruned(&config, &dotted));
    let mut lenient = config;
    lenient.ignore_dotfolders = false;
    assert!(check_pruned(&lenient, &dotted));

    // the root is kept whatever its name
    let root = Walk::new(vec![entry(".target", 0, EntryKind::Directory, None)]).expect("a listing");
    assert!(check_pruned(&lenient, &root));
    assert!(check_pruned(&lenient, &Walk::new(Vec::new()).expect("an empty listing")));
}
