use composition::text::{
    file_extension, has_leading_dot, line_is_blank, list_contains, lowered_contains,
    split_lines, strip_leading, trim_text,
};

#[test]
fn leading_dot() {
    assert!(has_leading_dot(".git"));
    assert!(has_leading_dot("."));
    assert!(!has_leading_dot("git."));
    assert!(!has_leading_dot(""));
}

#[test]
fn extension_of_plain_names() {
    assert_eq!(file_extension("main.rs"), Some("rs"));
    assert_eq!(file_extension("archive.tar.gz"), Some("gz"));
    assert_eq!(file_extension("Makefile"), None);
    assert_eq!(file_extension(""), None);
}

#[test]
fn extension_of_dotted_names() {
    assert_eq!(file_extension(".bashrc"), None);
    assert_eq!(file_extension(".config.toml"), Some("toml"));
    assert_eq!(file_extension("name."), Some(""));
    assert_eq!(file_extension("a..b"), Some("b"));
    assert_eq!(file_extension(".."), None);
    assert_eq!(file_extension("."), None);
    assert_eq!(file_extension("..a"), Some("a"));
}

#[test]
fn extension_agrees_with_std_paths() {
    let names = [
        "main.rs", "archive.tar.gz", "Makefile", "", ".bashrc", ".config.toml", "name.", "a..b",
        "..", ".", "..a", "...", "x.é", "é.x", "a.b.", ".a.", "+.+",
    ];
    for name in names {
        let expected = std::path::Path::new(name).extension().and_then(|e| e.to_str());
        assert_eq!(file_extension(name), expected, "for {:?}", name);
    }
}

#[test]
fn trimming() {
    assert_eq!(trim_text("  a b \t"), "a b");
    assert_eq!(trim_text("a"), "a");
    assert_eq!(trim_text(""), "");
    assert_eq!(trim_text(" \t\r\n"), "");
    assert_eq!(trim_text("\u{a0}x\u{3000}"), "x");
    assert_eq!(trim_text(" é "), "é");
}

#[test]
fn trimming_agrees_with_std() {
    let texts = ["", " ", "a", " a", "a ", " a b ", "\t{\t", "\u{2028}}\u{2029}", "a\u{200b}"];
    for text in texts {
        assert_eq!(trim_text(text), text.trim(), "for {:?}", text);
    }
}

#[test]
fn blank_lines() {
    assert!(line_is_blank(""));
    assert!(line_is_blank("   "));
    assert!(line_is_blank("\t \r"));
    assert!(!line_is_blank(" x "));
    assert!(!line_is_blank("\u{200b}"));
}

#[test]
fn stripping_a_leading_run() {
    assert_eq!(strip_leading("##abc", '#'), "abc");
    assert_eq!(strip_leading("abc#", '#'), "abc#");
    assert_eq!(strip_leading("###", '#'), "");
    assert_eq!(strip_leading("", '#'), "");
    assert_eq!(strip_leading("\u{feff}\u{feff}*.log", '\u{feff}'), "*.log");
}

#[test]
fn list_membership() {
    let list = vec!["a".to_string(), "bc".to_string()];
    assert!(list_contains(&list, "a"));
    assert!(list_contains(&list, "bc"));
    assert!(!list_contains(&list, "b"));
    assert!(!list_contains(&list, ""));
    assert!(!list_contains(&Vec::new(), "a"));
}

#[test]
fn membership_in_lower_case() {
    let list = vec!["RS".to_string(), "Makefile".to_string(), "py".to_string()];
    assert!(lowered_contains(&list, "rs"));
    assert!(lowered_contains(&list, "makefile"));
    assert!(lowered_contains(&list, "py"));
    assert!(!lowered_contains(&list, "RS"));
    assert!(!lowered_contains(&list, "Makefile"));
    assert!(!lowered_contains(&Vec::new(), "rs"));
}

#[test]
fn lines_of_a_text() {
    assert_eq!(split_lines(""), Vec::<String>::new());
    assert_eq!(split_lines("a"), vec!["a"]);
    assert_eq!(split_lines("a\n"), vec!["a"]);
    assert_eq!(split_lines("a\nb"), vec!["a", "b"]);
    assert_eq!(split_lines("a\n\nb\n"), vec!["a", "", "b"]);
    assert_eq!(split_lines("\n"), vec![""]);
    assert_eq!(split_lines("\n\n"), vec!["", ""]);
    // a carriage return before a line feed belongs to the line ending
    assert_eq!(split_lines("a\r\nb\r\n"), vec!["a", "b"]);
    assert_eq!(split_lines("\r\n"), vec![""]);
    // any other carriage return stays in its line
    assert_eq!(split_lines("a\rb\n"), vec!["a\rb"]);
    assert_eq!(split_lines("a\r"), vec!["a\r"]);
    assert_eq!(split_lines("\r"), vec!["\r"]);
    assert_eq!(split_lines("a\r\r\nb"), vec!["a\r", "b"]);
    assert_eq!(split_lines("\r\r"), vec!["\r\r"]);
    assert_eq!(split_lines("é\r\nü"), vec!["é", "ü"]);
}

#[test]
fn lines_agree_with_std() {
    let texts = [
        "", "a", "\n", "\r", "\r\n", "\n\r", "a\nb", "a\r\nb", "a\rb", "a\r\r\n", "\r\r\n\r",
        "\n\n\n", "a\n\r\nb\r", "x\r\n\r\ny", "\u{feff}a\r\n", "tab\there\n  \n",
        "no newline at end\r", "\r\na", "a\n\n", "é\r\nü\r", "\u{2028}\n\u{85}",
    ];
    for text in texts {
        let expected: Vec<&str> = text.lines().collect();
        assert_eq!(split_lines(text), expected, "for {:?}", text);
    }
}
