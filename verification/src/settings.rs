//! Fixed rules for a run without a configuration: which names are passed
//! over, which lines are noise, and a small registry of languages.

use crate::config::TrackedLanguage;
use crate::defaults::{
    entries_of, entry_of, is_plain, owned_texts, plain_language, slices_of, LanguageEntry,
};
use crate::text::{
    ascii_lowercase_of, has_leading_dot, is_blank, is_plainly_blank, line_is_blank,
    list_contains, lowercase_of, starts_with_dot, texts_of, trim_text, trimmed,
};
use vstd::prelude::*;
use vstd::string::StringExecFns;

verus! {

/// The directory names that the fixed rules pass over.
pub open spec fn skipped_directories() -> Seq<Seq<char>> {
    seq!["node_modules"@, "target"@, ".git"@, ".venv"@, "__venv__"@, "__pycache__"@]
}

/// The file names that the fixed rules pass over.
pub open spec fn skipped_files() -> Seq<Seq<char>> {
    seq![".env"@]
}

/// The lines that the fixed rules take for noise besides the blank ones: once
/// trimmed, a single bracket.
pub open spec fn noise_lines() -> Seq<Seq<char>> {
    seq!["{"@, "}"@, "("@, ")"@, "["@, "]"@]
}

/// Whether a name begins with a dot and is longer than the dot. A lone dot is
/// no hidden name: it names the directory that a walk starts from.
pub open spec fn is_dot_name(name: Seq<char>) -> bool {
    starts_with_dot(name) && name.len() > 1
}

/// Tells whether a name begins with a dot and is longer than the dot.
fn has_dot_name(name: &str) -> (dotted: bool)
    ensures
        dotted == is_dot_name(name@),
{
    !name.is_empty() && name.get_char(0) == '.' && name.unicode_len() > 1
}

/// Tells whether the fixed rules pass over a directory: its name is one of
/// the skipped names, or begins with a dot. The directory `.`, from which a
/// walk starts, is never passed over.
pub fn should_ignore_directory(dir_name: &str) -> (ignored: bool)
    ensures
        ignored == (skipped_directories().contains(dir_name@) || is_dot_name(dir_name@)),
{
    let skipped = owned_texts(
        vec!["node_modules", "target", ".git", ".venv", "__venv__", "__pycache__"],
    );
    assert(texts_of(skipped@) =~= skipped_directories());
    list_contains(&skipped, dir_name) || has_dot_name(dir_name)
}

/// Tells whether the fixed rules pass over a file: its name is one of the
/// skipped names, or begins with a dot.
pub fn should_ignore_file(file_name: &str) -> (ignored: bool)
    ensures
        ignored == (skipped_files().contains(file_name@) || starts_with_dot(file_name@)),
{
    let skipped = owned_texts(vec![".env"]);
    assert(texts_of(skipped@) =~= skipped_files());
    list_contains(&skipped, file_name) || has_leading_dot(file_name)
}

/// Tells whether the fixed rules leave a line out of the count: it is blank,
/// or, without the whitespace around it, it is a single bracket.
pub fn should_ignore_line(line: &str) -> (ignored: bool)
    ensures
        ignored == (is_blank(line@) || noise_lines().contains(trimmed(line@))),
        is_plainly_blank(line@) ==> ignored,
{
    if line_is_blank(line) {
        return true;
    }
    let noise = owned_texts(vec!["{", "}", "(", ")", "[", "]"]);
    assert(texts_of(noise@) =~= noise_lines());
    list_contains(&noise, trim_text(line))
}

/// The directory names that a traversal does not enter.
pub open spec fn ignored_directory_names() -> Seq<Seq<char>> {
    seq![
        ".git"@,
        "__venv__"@,
        ".venv"@,
        "venv"@,
        "__pycache__"@,
        "target"@,
        "node_modules"@,
        ".next"@,
        ".expo"@,
        ".idea"@,
        ".svelte-kit"@,
        ".github"@,
        ".rustup"@,
        ".config"@,
    ]
}

/// The directory names that a traversal does not enter.
pub fn get_ignored_directories() -> (names: Vec<&'static str>)
    ensures
        slices_of(names@) == ignored_directory_names(),
{
    let names = vec![
        ".git",
        "__venv__",
        ".venv",
        "venv",
        "__pycache__",
        "target",
        "node_modules",
        ".next",
        ".expo",
        ".idea",
        ".svelte-kit",
        ".github",
        ".rustup",
        ".config",
    ];
    assert(slices_of(names@) =~= ignored_directory_names());
    names
}

/// The file names that are not counted.
pub open spec fn ignored_file_names() -> Seq<Seq<char>> {
    seq!["package-lock.json"@]
}

/// The file names that are not counted.
pub fn get_ignored_files() -> (names: Vec<&'static str>)
    ensures
        slices_of(names@) == ignored_file_names(),
{
    let names = vec!["package-lock.json"];
    assert(slices_of(names@) =~= ignored_file_names());
    names
}

/// Whether the bars of the composition are drawn in colour.
pub fn get_colored_composition_bar() -> (colored: bool)
    ensures
        colored,
{
    true
}

/// The small registry of languages.
pub open spec fn builtin_languages() -> Seq<LanguageEntry> {
    seq![
        LanguageEntry { display: "Rust"@, extensions: seq!["rs"@] },
        LanguageEntry { display: "HTML"@, extensions: seq!["html"@] },
        LanguageEntry { display: "CSS"@, extensions: seq!["css"@, "scss"@] },
        LanguageEntry { display: "JavaScript"@, extensions: seq!["js"@, "jsx"@] },
        LanguageEntry { display: "TypeScript"@, extensions: seq!["ts"@, "tsx"@] },
        LanguageEntry { display: "Svelte"@, extensions: seq!["svelte"@] },
        LanguageEntry { display: "C"@, extensions: seq!["c"@] },
        LanguageEntry { display: "C++"@, extensions: seq!["cpp"@] },
        LanguageEntry { display: "C#"@, extensions: seq!["cs"@] },
        LanguageEntry { display: "Bash"@, extensions: seq!["bash"@, "bashrc"@, "bashprofile"@] },
        LanguageEntry { display: "Java"@, extensions: seq!["java"@] },
        LanguageEntry { display: "Python"@, extensions: seq!["py"@, "ipynb"@] },
        LanguageEntry { display: "Assembly"@, extensions: seq!["asm"@, "mips"@] },
        LanguageEntry { display: "Go"@, extensions: seq!["go"@] },
        LanguageEntry { display: "Prisma"@, extensions: seq!["prisma"@] },
    ]
}

/// The small registry of languages: each with its display name and
/// extensions, none with a colour or patterns of its own.
pub fn get_all_tracked() -> (languages: Vec<TrackedLanguage>)
    ensures
        entries_of(languages@) == builtin_languages(),
        forall|l: int| 0 <= l < languages@.len() ==> is_plain(#[trigger] languages@[l]),
{
    let mut languages: Vec<TrackedLanguage> = Vec::new();
    let language = plain_language("Rust", vec!["rs"]);
    assert(entry_of(language).extensions =~= builtin_languages()[0].extensions);
    languages.push(language);
    let language = plain_language("HTML", vec!["html"]);
    assert(entry_of(language).extensions =~= builtin_languages()[1].extensions);
    languages.push(language);
    let language = plain_language("CSS", vec!["css", "scss"]);
    assert(entry_of(language).extensions =~= builtin_languages()[2].extensions);
    languages.push(language);
    let language = plain_language("JavaScript", vec!["js", "jsx"]);
    assert(entry_of(language).extensions =~= builtin_languages()[3].extensions);
    languages.push(language);
    let language = plain_language("TypeScript", vec!["ts", "tsx"]);
    assert(entry_of(language).extensions =~= builtin_languages()[4].extensions);
    languages.push(language);
    let language = plain_language("Svelte", vec!["svelte"]);
    assert(entry_of(language).extensions =~= builtin_languages()[5].extensions);
    languages.push(language);
    let language = plain_language("C", vec!["c"]);
    assert(entry_of(language).extensions =~= builtin_languages()[6].extensions);
    languages.push(language);
    let language = plain_language("C++", vec!["cpp"]);
    assert(entry_of(language).extensions =~= builtin_languages()[7].extensions);
    languages.push(language);
    let language = plain_language("C#", vec!["cs"]);
    assert(entry_of(language).extensions =~= builtin_languages()[8].extensions);
    languages.push(language);
    let language = plain_language("Bash", vec!["bash", "bashrc", "bashprofile"]);
    assert(entry_of(language).extensions =~= builtin_languages()[9].extensions);
    languages.push(language);
    let language = plain_language("Java", vec!["java"]);
    assert(entry_of(language).extensions =~= builtin_languages()[10].extensions);
    languages.push(language);
    let language = plain_language("Python", vec!["py", "ipynb"]);
    assert(entry_of(language).extensions =~= builtin_languages()[11].extensions);
    languages.push(language);
    let language = plain_language("Assembly", vec!["asm", "mips"]);
    assert(entry_of(language).extensions =~= builtin_languages()[12].extensions);
    languages.push(language);
    let language = plain_language("Go", vec!["go"]);
    assert(entry_of(language).extensions =~= builtin_languages()[13].extensions);
    languages.push(language);
    let language = plain_language("Prisma", vec!["prisma"]);
    assert(entry_of(language).extensions =~= builtin_languages()[14].extensions);
    languages.push(language);
    assert(languages@.len() == 15);
    assert(entries_of(languages@) =~= builtin_languages());
    languages
}

/// A language of the registry with colours: its display name, its
/// extensions and the code of its colour.
pub struct ColoredEntry {
    pub entry: LanguageEntry,
    pub color: Option<Seq<char>>,
}

/// The display name, the extensions and the colour of a language.
pub open spec fn colored_entry_of(language: TrackedLanguage) -> ColoredEntry {
    ColoredEntry {
        entry: entry_of(language),
        color: match language.color {
            Some(color) => Some(color@),
            None => None,
        },
    }
}

/// The display names, extensions and colours of a registry, language by
/// language.
pub open spec fn colored_entries_of(languages: Seq<TrackedLanguage>) -> Seq<ColoredEntry> {
    Seq::new(languages.len(), |l: int| colored_entry_of(languages[l]))
}

/// A language with the given name, extensions and colour, without patterns of
/// its own.
pub fn colored_language(
    display: &'static str,
    extensions: Vec<&'static str>,
    color: &'static str,
) -> (language: TrackedLanguage)
    ensures
        colored_entry_of(language) == (ColoredEntry {
            entry: LanguageEntry { display: display@, extensions: slices_of(extensions@) },
            color: Some(color@),
        }),
        language.excluded_patterns@.len() == 0,
        language.compiled_excluded_patterns@.len() == 0,
{
    TrackedLanguage {
        display: String::from_str(display),
        extensions: owned_texts(extensions),
        color: Some(String::from_str(color)),
        excluded_patterns: Vec::new(),
        compiled_excluded_patterns: Vec::new(),
    }
}

/// The registry of languages with colours.
pub open spec fn colored_languages() -> Seq<ColoredEntry> {
    seq![
        ColoredEntry {
            entry: LanguageEntry { display: "Rust"@, extensions: seq!["rs"@] },
            color: Some("#F85009"@),
        },
        ColoredEntry {
            entry: LanguageEntry { display: "HTML"@, extensions: seq!["html"@] },
            color: Some("#E8622C"@),
        },
        ColoredEntry {
            entry: LanguageEntry { display: "CSS"@, extensions: seq!["css"@, "scss"@] },
            color: Some("#3BABDC"@),
        },
        ColoredEntry {
            entry: LanguageEntry { display: "JavaScript"@, extensions: seq!["js"@, "jsx"@] },
            color: Some("#FDDB44"@),
        },
        ColoredEntry {
            entry: LanguageEntry { display: "TypeScript"@, extensions: seq!["ts"@, "tsx"@] },
            color: Some("#2D79C7"@),
        },
        ColoredEntry {
            entry: LanguageEntry { display: "Svelte"@, extensions: seq!["svelte"@] },
            color: Some("#F73C00"@),
        },
        ColoredEntry {
            entry: LanguageEntry { display: "C"@, extensions: seq!["c"@] },
            color: Some("#084A86"@),
        },
        ColoredEntry {
            entry: LanguageEntry { display: "C++"@, extensions: seq!["cpp"@] },
            color: Some("#085E9F"@),
        },
        ColoredEntry {
            entry: LanguageEntry { display: "C#"@, extensions: seq!["cs"@] },
            color: Some("#3F0893"@),
        },
        ColoredEntry {
            entry: LanguageEntry { display: "Bash"@, extensions: seq!["bash"@] },
            color: Some("#087608"@),
        },
        ColoredEntry {
            entry: LanguageEntry { display: "Java"@, extensions: seq!["java"@] },
            color: Some("#0B9F97"@),
        },
        ColoredEntry {
            entry: LanguageEntry { display: "Python"@, extensions: seq!["py"@, "ipynb"@] },
            color: Some("#3772A3"@),
        },
        ColoredEntry {
            entry: LanguageEntry { display: "Assembly"@, extensions: seq!["asm"@, "mips"@] },
            color: Some("#093332"@),
        },
        ColoredEntry {
            entry: LanguageEntry { display: "Go"@, extensions: seq!["go"@] },
            color: Some("#34BEB2"@),
        },
    ]
}

/// The registry of languages with colours: each with its display name, its
/// extensions and the code of its colour, none with patterns of its own.
pub fn get_tracked_extensions() -> (languages: Vec<TrackedLanguage>)
    ensures
        colored_entries_of(languages@) == colored_languages(),
        forall|l: int|
            0 <= l < languages@.len() ==> (#[trigger] languages@[l]).excluded_patterns@.len() == 0
                && languages@[l].compiled_excluded_patterns@.len() == 0,
{
    let mut languages: Vec<TrackedLanguage> = Vec::new();
    let language = colored_language("Rust", vec!["rs"], "#F85009");
    assert(entry_of(language).extensions =~= colored_languages()[0].entry.extensions);
    languages.push(language);
    let language = colored_language("HTML", vec!["html"], "#E8622C");
    assert(entry_of(language).extensions =~= colored_languages()[1].entry.extensions);
    languages.push(language);
    let language = colored_language("CSS", vec!["css", "scss"], "#3BABDC");
    assert(entry_of(language).extensions =~= colored_languages()[2].entry.extensions);
    languages.push(language);
    let language = colored_language("JavaScript", vec!["js", "jsx"], "#FDDB44");
    assert(entry_of(language).extensions =~= colored_languages()[3].entry.extensions);
    languages.push(language);
    let language = colored_language("TypeScript", vec!["ts", "tsx"], "#2D79C7");
    assert(entry_of(language).extensions =~= colored_languages()[4].entry.extensions);
    languages.push(language);
    let language = colored_language("Svelte", vec!["svelte"], "#F73C00");
    assert(entry_of(language).extensions =~= colored_languages()[5].entry.extensions);
    languages.push(language);
    let language = colored_language("C", vec!["c"], "#084A86");
    assert(entry_of(language).extensions =~= colored_languages()[6].entry.extensions);
    languages.push(language);
    let language = colored_language("C++", vec!["cpp"], "#085E9F");
    assert(entry_of(language).extensions =~= colored_languages()[7].entry.extensions);
    languages.push(language);
    let language = colored_language("C#", vec!["cs"], "#3F0893");
    assert(entry_of(language).extensions =~= colored_languages()[8].entry.extensions);
    languages.push(language);
    let language = colored_language("Bash", vec!["bash"], "#087608");
    assert(entry_of(language).extensions =~= colored_languages()[9].entry.extensions);
    languages.push(language);
    let language = colored_language("Java", vec!["java"], "#0B9F97");
    assert(entry_of(language).extensions =~= colored_languages()[10].entry.extensions);
    languages.push(language);
    let language = colored_language("Python", vec!["py", "ipynb"], "#3772A3");
    assert(entry_of(language).extensions =~= colored_languages()[11].entry.extensions);
    languages.push(language);
    let language = colored_language("Assembly", vec!["asm", "mips"], "#093332");
    assert(entry_of(language).extensions =~= colored_languages()[12].entry.extensions);
    languages.push(language);
    let language = colored_language("Go", vec!["go"], "#34BEB2");
    assert(entry_of(language).extensions =~= colored_languages()[13].entry.extensions);
    languages.push(language);
    assert(languages@.len() == 14);
    assert(colored_entries_of(languages@) =~= colored_languages());
    languages
}

/// Whether a word names a language: it is, in lower case, the display name
/// or one of the extensions with its ASCII letters in lower case.
pub open spec fn is_named(language: LanguageEntry, word: Seq<char>) -> bool {
    ||| ascii_lowercase_of(language.display) == lowercase_of(word)
    ||| exists|e: int|
        0 <= e < language.extensions.len() && ascii_lowercase_of(#[trigger] language.extensions[e])
            == lowercase_of(word)
}

/// The first language at or after `from` that the word names.
pub open spec fn named_from(languages: Seq<LanguageEntry>, word: Seq<char>, from: int) -> Option<int>
    decreases languages.len() - from,
{
    if from < 0 || from >= languages.len() {
        None
    } else if is_named(languages[from], word) {
        Some(from)
    } else {
        named_from(languages, word, from + 1)
    }
}

/// What the user is told where a word names no language.
pub open spec fn unknown_language_message(word: Seq<char>) -> Seq<char> {
    "invalid value '"@ + word + "' for [TRACKED]: is not being tracked"@
}

/// Tells whether a word, given in lower case, names a language.
fn names_language(language: &TrackedLanguage, lower: &String, Ghost(word): Ghost<Seq<char>>) -> (named:
    bool)
    requires
        lower@ == lowercase_of(word),
    ensures
        named == is_named(entry_of(*language), word),
{
    if language.display.as_str().to_ascii_lowercase() == *lower {
        return true;
    }
    let ghost extensions = entry_of(*language).extensions;
    let mut e: usize = 0;
    while e < language.extensions.len()
        invariant
            e <= language.extensions@.len(),
            lower@ == lowercase_of(word),
            extensions == texts_of(language.extensions@),
            forall|k: int| 0 <= k < e ==> ascii_lowercase_of(#[trigger] extensions[k]) != lower@,
        decreases language.extensions@.len() - e,
    {
        if language.extensions[e].as_str().to_ascii_lowercase() == *lower {
            assert(extensions[e as int] == language.extensions@[e as int]@);
            assert(ascii_lowercase_of(entry_of(*language).extensions[e as int]) == lowercase_of(
                word,
            ));
            return true;
        }
        e += 1;
    }
    false
}

/// Finds, among the given languages, the first that a word names by its
/// display name or by one of its extensions, whatever the case of the word.
pub fn find_tracked(languages: &Vec<TrackedLanguage>, arg: &str) -> (found: Option<usize>)
    ensures
        match found {
            Some(l) => l < languages@.len() && named_from(entries_of(languages@), arg@, 0) == Some(
                l as int,
            ),
            None => named_from(entries_of(languages@), arg@, 0) is None,
        },
{
    let arg_lower = arg.to_lowercase();
    let mut l: usize = 0;
    while l < languages.len()
        invariant
            l <= languages@.len(),
            arg_lower@ == lowercase_of(arg@),
            named_from(entries_of(languages@), arg@, 0) == named_from(
                entries_of(languages@),
                arg@,
                l as int,
            ),
        decreases languages@.len() - l,
    {
        if names_language(&languages[l], &arg_lower, Ghost(arg@)) {
            return Some(l);
        }
        l += 1;
    }
    None
}

/// Reads a word of the command line as a language of the small registry: the
/// first that the word names. Where it names none, the error says so.
pub fn parse_tracked(arg: &str) -> (res: Result<TrackedLanguage, String>)
    ensures
        match named_from(builtin_languages(), arg@, 0) {
            Some(l) => res matches Ok(language) && entry_of(language) == builtin_languages()[l]
                && is_plain(language),
            None => res matches Err(message) && message@ == unknown_language_message(arg@),
        },
{
    let mut all = get_all_tracked();
    match find_tracked(&all, arg) {
        Some(l) => {
            assert(entries_of(all@)[l as int] == entry_of(all@[l as int]));
            Ok(all.swap_remove(l))
        },
        None => {
            let mut message = String::from_str("invalid value '");
            message.append(arg);
            message.append("' for [TRACKED]: is not being tracked");
            Err(message)
        },
    }
}

} // verus!
