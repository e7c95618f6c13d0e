use composition::config::{
    apply_cli_overrides, check_extensions_in_lower_case, compile_regexes, extend_texts,
    CliOverrides, Config, ConfigLoadError, TrackedLanguage,
};
use composition::pattern::matches_any;

fn language(display: &str, extensions: &[&str], patterns: &[&str]) -> TrackedLanguage {
    TrackedLanguage {
        display: display.to_string(),
        extensions: extensions.iter().map(|e| e.to_string()).collect(),
        color: Some("#102030".to_string()),
        excluded_patterns: patterns.iter().map(|p| p.to_string()).collect(),
        compiled_excluded_patterns: Vec::new(),
    }
}

fn parsed(languages: Vec<TrackedLanguage>, patterns: &[&str]) -> Config {
    Config {
        use_color: true,
        respect_gitignore: false,
        ignore_dotfolders: false,
        ignored_directories: vec!["out".to_string()],
        ignore_dotfiles: true,
        ignored_files: vec!["x.lock".to_string()],
        ignore_empty_lines: false,
        excluded_patterns: patterns.iter().map(|p| p.to_string()).collect(),
        languages,
        compiled_excluded_patterns: Vec::new(),
    }
}

fn no_overrides() -> CliOverrides {
    CliOverrides {
        use_color: None,
        respect_gitignore: None,
        ignore_dotfolders: None,
        ignore_dotfiles: None,
        ignore_empty_lines: None,
        ignored_directories: Vec::new(),
        ignored_files: Vec::new(),
        excluded_patterns: Vec::new(),
    }
}

fn sources(config: &Config) -> Vec<String> {
    config.compiled_excluded_patterns.iter().map(|r| r.as_str().to_string()).collect()
}

#[test]
fn compiling_patterns_keeps_their_order_and_text() {
    let patterns = vec!["^a".to_string(), "b$".to_string(), "".to_string()];
    let compiled = compile_regexes(&patterns).expect("all compile");
    let texts: Vec<&str> = compiled.iter().map(|r| r.as_str()).collect();
    assert_eq!(texts, vec!["^a", "b$", ""]);
    assert!(compiled[0].is_match("abc"));
    assert!(!compiled[0].is_match("cba"));
    assert!(compile_regexes(&Vec::new()).expect("nothing to compile").is_empty());
}

#[test]
fn compiling_stops_at_the_first_bad_pattern() {
    let patterns = vec!["ok".to_string(), "(".to_string(), "[".to_string()];
    match compile_regexes(&patterns) {
        Err(ConfigLoadError::RegexCompileFailed(pattern)) => assert_eq!(pattern, "("),
        other => panic!("unexpected outcome: {:?}", other),
    }
}

#[test]
fn matching_any_pattern() {
    let compiled = compile_regexes(&vec!["^\\s*//".to_string(), "NOTE".to_string()]).expect("compile");
    assert!(matches_any(&compiled, "  // note"));
    assert!(matches_any(&compiled, "x NOTE y"));
    assert!(!matches_any(&compiled, "x // note"));
    assert!(!matches_any(&Vec::new(), "anything"));
}

#[test]
fn loading_compiles_all_patterns() {
    let raw = parsed(
        vec![language("A", &["a"], &["^#", "x+"]), language("B", &["b"], &[])],
        &["^//"],
    );
    let config = Config::load(raw).expect("a valid configuration");
    assert_eq!(sources(&config), vec!["^//"]);
    let own: Vec<&str> = config.languages[0].compiled_excluded_patterns.iter().map(|r| r.as_str()).collect();
    assert_eq!(own, vec!["^#", "x+"]);
    assert!(config.languages[1].compiled_excluded_patterns.is_empty());
    // everything else is as it was parsed
    assert!(config.use_color);
    assert!(!config.respect_gitignore);
    assert!(!config.ignore_dotfolders);
    assert!(config.ignore_dotfiles);
    assert!(!config.ignore_empty_lines);
    assert_eq!(config.ignored_directories, vec!["out"]);
    assert_eq!(config.ignored_files, vec!["x.lock"]);
    assert_eq!(config.excluded_patterns, vec!["^//"]);
    assert_eq!(config.languages[0].display, "A");
    assert_eq!(config.languages[0].extensions, vec!["a"]);
    assert_eq!(config.languages[0].color, Some("#102030".to_string()));
    assert_eq!(config.languages[0].excluded_patterns, vec!["^#", "x+"]);
}

#[test]
fn loading_rejects_a_bad_global_pattern() {
    let raw = parsed(vec![language("A", &["a"], &[]), language("A", &["b"], &[])], &["ok", "(bad"]);
    match Config::load(raw) {
        Err(ConfigLoadError::RegexCompileFailed(pattern)) => assert_eq!(pattern, "(bad"),
        other => panic!("unexpected outcome: {:?}", other.map(|_| ())),
    }
}

#[test]
fn loading_rejects_a_repeated_display_name() {
    let raw = parsed(
        vec![language("A", &["a"], &[]), language("B", &["b"], &[]), language("A", &["c"], &[])],
        &[],
    );
    match Config::load(raw) {
        Err(ConfigLoadError::DuplicateTrackedDisplay(display)) => assert_eq!(display, "A"),
        other => panic!("unexpected outcome: {:?}", other.map(|_| ())),
    }
}

#[test]
fn loading_reports_the_first_fault_of_the_registry() {
    // the bad pattern of the second language comes before the repeated name
    let raw = parsed(
        vec![language("A", &["a"], &[]), language("B", &["b"], &["*"]), language("A", &["c"], &[])],
        &[],
    );
    match Config::load(raw) {
        Err(ConfigLoadError::RegexCompileFailed(pattern)) => assert_eq!(pattern, "*"),
        other => panic!("unexpected outcome: {:?}", other.map(|_| ())),
    }
    // a repeated name is seen before the patterns of its language
    let raw = parsed(vec![language("A", &["a"], &[]), language("A", &["b"], &["*"])], &[]);
    match Config::load(raw) {
        Err(ConfigLoadError::DuplicateTrackedDisplay(display)) => assert_eq!(display, "A"),
        other => panic!("unexpected outcome: {:?}", other.map(|_| ())),
    }
}

#[test]
fn display_names_differ_by_case() {
    let raw = parsed(vec![language("A", &["a"], &[]), language("a", &["a"], &[])], &[]);
    assert!(Config::load(raw).is_ok());
}

#[test]
fn error_messages() {
    assert_eq!(ConfigLoadError::FileReadFailed.message(), "failed to read the config file");
    assert_eq!(
        ConfigLoadError::TomlParseFailed.message(),
        "failed to parse the config file as TOML"
    );
    assert_eq!(
        ConfigLoadError::RegexCompileFailed("(x".to_string()).message(),
        "failed to compile regex pattern: '(x'"
    );
    assert_eq!(
        ConfigLoadError::DuplicateTrackedDisplay("Rust".to_string()).message(),
        "duplicate tracked display found: 'Rust'"
    );
}

#[test]
fn a_loadable_configuration_is_used() {
    let raw = parsed(vec![language("A", &["a"], &[])], &["^//"]);
    let (config, loaded) = Config::from_config(Ok(raw));
    assert!(loaded);
    assert!(config.use_color);
    assert_eq!(config.languages.len(), 1);
    assert_eq!(sources(&config), vec!["^//"]);
}

#[test]
fn a_faulty_configuration_falls_back_to_the_defaults() {
    let raw = parsed(vec![language("A", &["a"], &[]), language("A", &["a"], &[])], &[]);
    let (config, loaded) = Config::from_config(Ok(raw));
    assert!(!loaded);
    assert!(!config.use_color);
    assert_eq!(config.languages.len(), 44);

    for failure in [ConfigLoadError::FileReadFailed, ConfigLoadError::TomlParseFailed] {
        let (config, loaded) = Config::from_config(Err(failure));
        assert!(!loaded);
        assert!(config.respect_gitignore);
        assert_eq!(config.languages.len(), 44);
        assert_eq!(config.compiled_excluded_patterns.len(), 3);
    }
}

#[test]
fn extending_a_list() {
    let mut list = vec!["a".to_string()];
    extend_texts(&mut list, &vec!["b".to_string(), "a".to_string()]);
    assert_eq!(list, vec!["a", "b", "a"]);
    extend_texts(&mut list, &Vec::new());
    assert_eq!(list, vec!["a", "b", "a"]);
}

#[test]
fn no_overrides_change_nothing() {
    let mut config = Config::load(parsed(vec![language("A", &["a"], &[])], &["^//"])).expect("valid");
    assert_eq!(apply_cli_overrides(&mut config, &no_overrides()), Ok(()));
    assert!(config.use_color);
    assert!(!config.respect_gitignore);
    assert!(!config.ignore_dotfolders);
    assert!(config.ignore_dotfiles);
    assert!(!config.ignore_empty_lines);
    assert_eq!(config.ignored_directories, vec!["out"]);
    assert_eq!(config.ignored_files, vec!["x.lock"]);
    assert_eq!(config.excluded_patterns, vec!["^//"]);
    assert_eq!(sources(&config), vec!["^//"]);
}

#[test]
fn switches_are_replaced_and_lists_extended() {
    let mut config = Config::load(parsed(vec![language("A", &["a"], &[])], &["^//"])).expect("valid");
    let cli = CliOverrides {
        use_color: Some(false),
        respect_gitignore: Some(true),
        ignore_dotfolders: Some(true),
        ignore_dotfiles: Some(false),
        ignore_empty_lines: Some(true),
        ignored_directories: vec!["dist".to_string(), "out".to_string()],
        ignored_files: vec!["y.lock".to_string()],
        excluded_patterns: vec!["^#".to_string()],
    };
    assert_eq!(apply_cli_overrides(&mut config, &cli), Ok(()));
    assert!(!config.use_color);
    assert!(config.respect_gitignore);
    assert!(config.ignore_dotfolders);
    assert!(!config.ignore_dotfiles);
    assert!(config.ignore_empty_lines);
    assert_eq!(config.ignored_directories, vec!["out", "dist", "out"]);
    assert_eq!(config.ignored_files, vec!["x.lock", "y.lock"]);
    assert_eq!(config.excluded_patterns, vec!["^//", "^#"]);
    assert_eq!(sources(&config), vec!["^//", "^#"]);
    assert_eq!(config.languages.len(), 1);
}

#[test]
fn a_bad_pattern_from_the_command_line_is_reported() {
    let mut config = Config::load(parsed(Vec::new(), &["^//"])).expect("valid");
    let mut cli = no_overrides();
    cli.use_color = Some(false);
    cli.excluded_patterns = vec!["ok".to_string(), "(".to_string()];
    assert_eq!(
        apply_cli_overrides(&mut config, &cli),
        Err("Failed to compile regex pattern: '('".to_string())
    );
    // what came before the patterns has been applied, the compiled patterns stay
    assert!(!config.use_color);
    assert_eq!(config.excluded_patterns, vec!["^//", "ok", "("]);
    assert_eq!(sources(&config), vec!["^//"]);
}

#[test]
fn extensions_in_lower_case_are_told_apart() {
    assert!(check_extensions_in_lower_case(&Vec::new()));
    assert!(check_extensions_in_lower_case(&vec![language("A", &["a", "b1"], &[]), language("B", &[], &[])]));
    assert!(!check_extensions_in_lower_case(&vec![language("A", &["a"], &[]), language("R", &["r", "R"], &[])]));
    assert!(!check_extensions_in_lower_case(&vec![language("M", &["Makefile"], &[])]));
}
