use composition::config::{Config, TrackedLanguage};
use composition::engine::{gather_files, run_composition};
use composition::walk::{EntryKind, Walk, WalkEntry};

fn language(display: &str, extensions: &[&str]) -> TrackedLanguage {
    TrackedLanguage {
        display: display.to_string(),
        extensions: extensions.iter().map(|e| e.to_string()).collect(),
        color: None,
        excluded_patterns: Vec::new(),
        compiled_excluded_patterns: Vec::new(),
    }
}

fn config(languages: Vec<TrackedLanguage>) -> Config {
    let parsed = Config {
        use_color: false,
        respect_gitignore: true,
        ignore_dotfolders: true,
        ignored_directories: vec!["target".to_string()],
        ignore_dotfiles: true,
        ignored_files: Vec::new(),
        ignore_empty_lines: true,
        excluded_patterns: Vec::new(),
        languages,
        compiled_excluded_patterns: Vec::new(),
    };
    Config::load(parsed).expect("a valid configuration")
}

fn tree(listing: &[(&str, usize, EntryKind, Option<&str>)]) -> (Walk, Vec<Option<String>>) {
    let mut entries = Vec::new();
    let mut contents = Vec::new();
    for &(path, depth, kind, text) in listing {
        let directory = kind == EntryKind::Directory;
        entries.push(WalkEntry {
            path: path.to_string(),
            name: path.rsplit('/').next().expect("a name").to_string(),
            depth,
            kind,
            ignore_file: if directory { text.map(|t| t.to_string()) } else { None },
        });
        contents.push(if directory { None } else { text.map(|t| t.to_string()) });
    }
    (Walk::new(entries).expect("a pre-order listing"), contents)
}

fn run(config: &Config, walk: &Walk, contents: &Vec<Option<String>>) -> Vec<(String, usize)> {
    run_composition(config, walk, contents)
        .expect("the totals fit")
        .iter()
        .map(|e| (e.language.display.clone(), e.line_count))
        .collect()
}

const D: EntryKind = EntryKind::Directory;
const F: EntryKind = EntryKind::File;
const TEN: &str = "1\n2\n\n4\n5\n6\n \t\n8\n9\n10\n";
const FIVE: &str = "a\nb\nc\nd\ne\n";

#[test]
fn a_run_counts_the_eligible_files() {
    let config = config(vec![language("Rust", &["rs"])]);
    let (walk, contents) = tree(&[
        ("root", 0, D, None),
        ("root/a.rs", 1, F, Some(TEN)),
        ("root/sub", 1, D, Some("b.rs\n")),
        ("root/sub/b.rs", 2, F, Some(FIVE)),
    ]);
    assert_eq!(run(&config, &walk, &contents), vec![("Rust".to_string(), 8)]);

    let (walk, contents) = tree(&[
        ("root", 0, D, None),
        ("root/a.rs", 1, F, Some(TEN)),
        ("root/sub", 1, D, None),
        ("root/sub/b.rs", 2, F, Some(FIVE)),
    ]);
    assert_eq!(run(&config, &walk, &contents), vec![("Rust".to_string(), 13)]);
}

#[test]
fn a_language_with_all_files_excluded_is_left_out() {
    let config = config(vec![language("Rust", &["rs"]), language("Go", &["go"])]);
    let (walk, contents) = tree(&[
        ("root", 0, D, Some("*.go\n")),
        ("root/a.rs", 1, F, Some(FIVE)),
        ("root/b.go", 1, F, Some(FIVE)),
        ("root/sub", 1, D, None),
        ("root/sub/c.go", 2, F, Some(TEN)),
    ]);
    assert_eq!(run(&config, &walk, &contents), vec![("Rust".to_string(), 5)]);

    let (walk, contents) = tree(&[
        ("root", 0, D, Some("*\n")),
        ("root/a.rs", 1, F, Some(FIVE)),
        ("root/b.go", 1, F, Some(FIVE)),
    ]);
    assert_eq!(run(&config, &walk, &contents), Vec::new());
}

#[test]
fn files_that_cannot_be_read_are_passed_over() {
    let config = config(vec![language("Rust", &["rs"])]);
    let (walk, contents) = tree(&[
        ("root", 0, D, None),
        ("root/a.rs", 1, F, None),
        ("root/b.rs", 1, F, Some(FIVE)),
    ]);
    assert_eq!(run(&config, &walk, &contents), vec![("Rust".to_string(), 5)]);
}

#[test]
fn gathering_pairs_names_and_texts() {
    let (walk, contents) = tree(&[
        ("root", 0, D, None),
        ("root/a.rs", 1, F, Some("x")),
        ("root/b.rs", 1, F, None),
        ("root/c.rs", 1, F, Some("z")),
    ]);
    let files = gather_files(&walk, &contents, &vec![3, 1, 2]);
    let seen: Vec<(&str, Option<&str>)> =
        files.iter().map(|f| (f.name.as_str(), f.content.as_deref())).collect();
    assert_eq!(seen, vec![("c.rs", Some("z")), ("a.rs", Some("x")), ("b.rs", None)]);
    assert!(gather_files(&walk, &contents, &Vec::new()).is_empty());
}

#[test]
fn an_empty_walk_has_an_empty_composition() {
    let config = config(vec![language("Rust", &["rs"])]);
    let walk = Walk::new(Vec::new()).expect("an empty listing");
    assert_eq!(run(&config, &walk, &Vec::new()), Vec::new());
}
