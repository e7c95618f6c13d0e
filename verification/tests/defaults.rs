use composition::config::{check_extensions_in_lower_case, Config};
use composition::defaults::{
    excluded_patterns, ignore_dotfiles, ignore_dotfolders, ignore_empty_lines,
    ignored_directories, ignored_files, log_scale, respect_gitignore, tracked_languages,
    use_color,
};
use std::collections::HashSet;

#[test]
fn default_config_loads() {
    let _config = Config::default();
}

#[test]
fn tracked_display_names_are_unique() {
    let config = Config::default();

    let mut seen = HashSet::new();
    for language in &config.languages {
        assert!(
            seen.insert(&language.display),
            "duplicate display name found '{}'",
            language.display
        )
    }
}

#[test]
fn global_regexes_compile_correctly() {
    let config = Config::default();

    // check compiled_excluded_patterns count matches raw patterns
    assert_eq!(
        config.excluded_patterns.len(),
        config.compiled_excluded_patterns.len(),
        "compiled_excluded_patterns length should match excluded_patterns"
    );

    // ensure compiled regex matches the pattern string
    for (pat, compiled) in config
        .excluded_patterns
        .iter()
        .zip(config.compiled_excluded_patterns.iter())
    {
        assert_eq!(
            compiled.as_str(),
            pat,
            "compiled regex differs from pattern {}",
            pat
        );
    }
}

#[test]
fn tracked_regexes_compile_correctly() {
    let config = Config::default();

    for language in &config.languages {
        assert_eq!(
            language.excluded_patterns.len(),
            language.compiled_excluded_patterns.len(),
            "compiled_excluded_patterns length mismatch for tracked '{}'",
            language.display
        );

        for (pat, compiled) in language
            .excluded_patterns
            .iter()
            .zip(language.compiled_excluded_patterns.iter())
        {
            assert_eq!(
                compiled.as_str(),
                pat,
                "compiled regex differs from pattern {} for tracked {}",
                pat,
                language.display
            );
        }
    }
}

#[test]
fn default_switches() {
    assert!(!use_color());
    assert!(!log_scale());
    assert!(respect_gitignore());
    assert!(ignore_dotfolders());
    assert!(ignore_dotfiles());
    assert!(ignore_empty_lines());
}

#[test]
fn default_lists() {
    assert_eq!(
        ignored_directories(),
        vec!["node_modules", "target", "build", "dist", "__venv__", "__pycache__"]
    );
    assert_eq!(ignored_files(), vec!["package-lock.json"]);
    assert_eq!(
        excluded_patterns(),
        vec![r"^\s*//", r"^\s*#", r"^\s*[\{\}\[\]\(\),;]+\s*$"]
    );
}

#[test]
fn default_registry_shape() {
    let languages = tracked_languages();
    assert_eq!(languages.len(), 44);
    assert_eq!(languages[0].display, "Rust");
    assert_eq!(languages[0].extensions, vec!["rs"]);
    assert_eq!(languages[10].display, "Bash / Shell");
    assert_eq!(
        languages[10].extensions,
        vec!["sh", "bash", "bashrc", "bash_profile", "zsh", "zshrc"]
    );
    assert_eq!(languages[22].display, "R");
    assert_eq!(languages[22].extensions, vec!["r"]);
    assert_eq!(languages[32].display, "Makefile");
    assert_eq!(languages[32].extensions, vec!["mk", "make", "makefile"]);
    assert_eq!(languages[43].display, "Sass");
    assert_eq!(languages[43].extensions, vec!["sass"]);
    for language in &languages {
        assert!(language.color.is_none());
        assert!(language.excluded_patterns.is_empty());
        assert!(language.compiled_excluded_patterns.is_empty());
        assert!(!language.extensions.is_empty());
    }
}

#[test]
fn default_config_holds_the_defaults() {
    let config = Config::default();
    assert!(!config.use_color);
    assert!(config.respect_gitignore);
    assert!(config.ignore_dotfolders);
    assert!(config.ignore_dotfiles);
    assert!(config.ignore_empty_lines);
    assert_eq!(config.ignored_directories, ignored_directories());
    assert_eq!(config.ignored_files, ignored_files());
    assert_eq!(config.excluded_patterns, excluded_patterns());
    assert_eq!(config.languages.len(), 44);
    assert_eq!(config.compiled_excluded_patterns.len(), 3);
}

#[test]
fn default_extensions_are_in_lower_case() {
    let languages = tracked_languages();
    for language in &languages {
        for extension in &language.extensions {
            assert_eq!(extension, &extension.to_lowercase());
        }
    }
    assert!(check_extensions_in_lower_case(&languages));
    assert!(check_extensions_in_lower_case(&Config::default().languages));
}
