use composition::color::{hex_byte, hex_digit, hex_to_rgb};
use composition::settings::{
    find_tracked, get_all_tracked, get_colored_composition_bar, get_ignored_directories,
    get_ignored_files, get_tracked_extensions, parse_tracked, should_ignore_directory,
    should_ignore_file, should_ignore_line,
};

#[test]
fn directories_passed_over() {
    for name in ["node_modules", "target", ".git", ".venv", "__venv__", "__pycache__"] {
        assert!(should_ignore_directory(name), "{}", name);
    }
    assert!(should_ignore_directory(".anything"));
    assert!(!should_ignore_directory("."));
    assert!(!should_ignore_directory("src"));
    assert!(!should_ignore_directory("Target"));
    assert!(!should_ignore_directory(""));
    assert!(!should_ignore_directory("a.b"));
}

#[test]
fn files_passed_over() {
    assert!(should_ignore_file(".env"));
    assert!(should_ignore_file(".gitignore"));
    assert!(should_ignore_file("."));
    assert!(!should_ignore_file("env"));
    assert!(!should_ignore_file("main.rs"));
    assert!(!should_ignore_file(""));
}

#[test]
fn lines_of_noise() {
    for line in ["{", "}", "(", ")", "[", "]", "  {  ", "  }  ", "\t}\r"] {
        assert!(should_ignore_line(line), "{:?}", line);
    }
    for line in ["", "   ", " \t\r", "\u{3000}"] {
        assert!(should_ignore_line(line), "{:?}", line);
    }
    for line in ["{}", "{ }", "x", "};", "fn main() {", "let x = 1;"] {
        assert!(!should_ignore_line(line), "{:?}", line);
    }
}

#[test]
fn fixed_lists() {
    assert_eq!(
        get_ignored_directories(),
        vec![
            ".git", "__venv__", ".venv", "venv", "__pycache__", "target", "node_modules",
            ".next", ".expo", ".idea", ".svelte-kit", ".github", ".rustup", ".config"
        ]
    );
    assert_eq!(get_ignored_files(), vec!["package-lock.json"]);
    assert!(get_colored_composition_bar());
}

#[test]
fn small_registry() {
    let languages = get_all_tracked();
    assert_eq!(languages.len(), 15);
    assert_eq!(languages[0].display, "Rust");
    assert_eq!(languages[0].extensions, vec!["rs"]);
    assert_eq!(languages[9].display, "Bash");
    assert_eq!(languages[9].extensions, vec!["bash", "bashrc", "bashprofile"]);
    assert_eq!(languages[14].display, "Prisma");
    assert_eq!(languages[14].extensions, vec!["prisma"]);
    let names: Vec<&str> = languages.iter().map(|l| l.display.as_str()).collect();
    assert_eq!(
        names,
        vec![
            "Rust", "HTML", "CSS", "JavaScript", "TypeScript", "Svelte", "C", "C++", "C#", "Bash",
            "Java", "Python", "Assembly", "Go", "Prisma"
        ]
    );
}

#[test]
fn a_word_names_a_language() {
    assert_eq!(parse_tracked("rust").expect("known").display, "Rust");
    assert_eq!(parse_tracked("RS").expect("known").display, "Rust");
    assert_eq!(parse_tracked("c++").expect("known").display, "C++");
    assert_eq!(parse_tracked("C").expect("known").display, "C");
    assert_eq!(parse_tracked("ipynb").expect("known").display, "Python");
    assert_eq!(parse_tracked("Prisma").expect("known").extensions, vec!["prisma"]);
    let all = get_all_tracked();
    assert_eq!(find_tracked(&all, "scss"), Some(2));
    assert_eq!(find_tracked(&all, "JAVA"), Some(10));
    assert_eq!(find_tracked(&all, "cobol"), None);
    assert_eq!(find_tracked(&Vec::new(), "rust"), None);
}

#[test]
fn an_unknown_word_is_reported() {
    assert_eq!(
        parse_tracked("cobol").map(|l| l.display),
        Err("invalid value 'cobol' for [TRACKED]: is not being tracked".to_string())
    );
    assert_eq!(
        parse_tracked("").map(|l| l.display),
        Err("invalid value '' for [TRACKED]: is not being tracked".to_string())
    );
}

#[test]
fn hexadecimal_digits() {
    assert_eq!(hex_digit('0'), Some(0));
    assert_eq!(hex_digit('9'), Some(9));
    assert_eq!(hex_digit('a'), Some(10));
    assert_eq!(hex_digit('f'), Some(15));
    assert_eq!(hex_digit('A'), Some(10));
    assert_eq!(hex_digit('F'), Some(15));
    for c in ['g', 'G', '/', ':', '@', '`', ' ', '+', '-', 'é', '٣'] {
        assert_eq!(hex_digit(c), None, "{:?}", c);
    }
    assert_eq!(hex_byte('f', 'f'), Some(255));
    assert_eq!(hex_byte('0', '0'), Some(0));
    assert_eq!(hex_byte('1', 'A'), Some(26));
    assert_eq!(hex_byte('+', '7'), Some(7));
    assert_eq!(hex_byte('7', '+'), None);
    assert_eq!(hex_byte('-', '7'), None);
    assert_eq!(hex_byte('g', '0'), None);
}

#[test]
fn hexadecimal_bytes_agree_with_std() {
    let chars = ['0', '9', 'a', 'f', 'A', 'F', 'g', '+', '-', ' ', 'z', '7'];
    for high in chars {
        for low in chars {
            let text: String = [high, low].iter().collect();
            assert_eq!(hex_byte(high, low), u8::from_str_radix(&text, 16).ok(), "{:?}", text);
        }
    }
}

#[test]
fn colour_codes() {
    assert_eq!(hex_to_rgb("#F85009"), Some((248, 80, 9)));
    assert_eq!(hex_to_rgb("f85009"), Some((248, 80, 9)));
    assert_eq!(hex_to_rgb("##000000"), Some((0, 0, 0)));
    assert_eq!(hex_to_rgb("#ffffff"), Some((255, 255, 255)));
    assert_eq!(hex_to_rgb("#3BABDC"), Some((59, 171, 220)));
    assert_eq!(hex_to_rgb("#+1+2+3"), Some((1, 2, 3)));
    assert_eq!(hex_to_rgb(""), None);
    assert_eq!(hex_to_rgb("#"), None);
    assert_eq!(hex_to_rgb("#fff"), None);
    assert_eq!(hex_to_rgb("#fffffff"), None);
    assert_eq!(hex_to_rgb("#ggffff"), None);
    assert_eq!(hex_to_rgb("#ffff f"), None);
    assert_eq!(hex_to_rgb("ff#ffff"), None);
    assert_eq!(hex_to_rgb("#ééé"), None);
    assert_eq!(hex_to_rgb("#aéé123"), None);
}

#[test]
fn registry_with_colours() {
    let languages = get_tracked_extensions();
    assert_eq!(languages.len(), 14);
    assert_eq!(languages[0].display, "Rust");
    assert_eq!(languages[0].extensions, vec!["rs"]);
    assert_eq!(languages[0].color, Some("#F85009".to_string()));
    assert_eq!(languages[2].display, "CSS");
    assert_eq!(languages[2].extensions, vec!["css", "scss"]);
    assert_eq!(languages[2].color, Some("#3BABDC".to_string()));
    assert_eq!(languages[9].display, "Bash");
    assert_eq!(languages[9].extensions, vec!["bash"]);
    assert_eq!(languages[13].display, "Go");
    assert_eq!(languages[13].color, Some("#34BEB2".to_string()));
    for language in &languages {
        assert!(language.excluded_patterns.is_empty());
        assert!(language.compiled_excluded_patterns.is_empty());
    }
}

#[test]
fn every_colour_of_the_registry_is_a_colour() {
    let colours: Vec<Option<(u8, u8, u8)>> = get_tracked_extensions()
        .iter()
        .map(|language| hex_to_rgb(language.color.as_deref().expect("a colour")))
        .collect();
    assert_eq!(colours[0], Some((248, 80, 9)));
    assert_eq!(colours[1], Some((232, 98, 44)));
    assert_eq!(colours[13], Some((52, 190, 178)));
    assert!(colours.iter().all(|colour| colour.is_some()));
}
