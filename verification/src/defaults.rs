//! The built-in configuration: what a run uses where the user has configured
//! nothing else.

use crate::config::TrackedLanguage;
use crate::text::texts_of;
use vstd::prelude::*;
use vstd::string::StringExecFns;

verus! {

/// Bars are drawn without colour.
pub fn use_color() -> (enabled: bool)
    ensures
        !enabled,
{
    false
}

/// Bars are drawn to a linear scale.
pub fn log_scale() -> (enabled: bool)
    ensures
        !enabled,
{
    false
}

/// Ignore files are respected.
pub fn respect_gitignore() -> (enabled: bool)
    ensures
        enabled,
{
    true
}

/// Directories whose name begins with a dot are not entered.
pub fn ignore_dotfolders() -> (enabled: bool)
    ensures
        enabled,
{
    true
}

/// Files whose name begins with a dot are not counted.
pub fn ignore_dotfiles() -> (enabled: bool)
    ensures
        enabled,
{
    true
}

/// Blank lines are not counted.
pub fn ignore_empty_lines() -> (enabled: bool)
    ensures
        enabled,
{
    true
}

/// The texts of a list of string slices.
pub open spec fn slices_of(list: Seq<&'static str>) -> Seq<Seq<char>> {
    Seq::new(list.len(), |i: int| list[i]@)
}

/// Copies string slices into owned strings.
pub fn owned_texts(list: Vec<&'static str>) -> (owned: Vec<String>)
    ensures
        texts_of(owned@) == slices_of(list@),
{
    let mut owned: Vec<String> = Vec::with_capacity(list.len());
    let mut i: usize = 0;
    while i < list.len()
        invariant
            i <= list.len(),
            texts_of(owned@) == slices_of(list@).take(i as int),
        decreases list.len() - i,
    {
        let ghost before = texts_of(owned@);
        owned.push(String::from_str(list[i]));
        assert(texts_of(owned@) =~= before.push(list@[i as int]@));
        assert(slices_of(list@).take(i + 1) =~= slices_of(list@).take(i as int).push(
            list@[i as int]@,
        ));
        i += 1;
    }
    assert(slices_of(list@).take(i as int) =~= slices_of(list@));
    owned
}

/// The names of the directories that are never entered.
pub open spec fn default_ignored_directories() -> Seq<Seq<char>> {
    seq!["node_modules"@, "target"@, "build"@, "dist"@, "__venv__"@, "__pycache__"@]
}

/// The names of the directories that are never entered.
pub fn ignored_directories() -> (names: Vec<String>)
    ensures
        texts_of(names@) == default_ignored_directories(),
{
    let names = owned_texts(vec!["node_modules", "target", "build", "dist", "__venv__", "__pycache__"]);
    assert(texts_of(names@) =~= default_ignored_directories());
    names
}

/// The names of the files that are never counted.
pub open spec fn default_ignored_files() -> Seq<Seq<char>> {
    seq!["package-lock.json"@]
}

/// The names of the files that are never counted.
pub fn ignored_files() -> (names: Vec<String>)
    ensures
        texts_of(names@) == default_ignored_files(),
{
    let names = owned_texts(vec!["package-lock.json"]);
    assert(texts_of(names@) =~= default_ignored_files());
    names
}

/// The patterns of lines that count in no language: lines that begin with
/// `//` or with `#`, and lines made of brackets, commas and semicolons alone.
pub open spec fn default_excluded_patterns() -> Seq<Seq<char>> {
    seq!["^\\s*//"@, "^\\s*#"@, "^\\s*[\\{\\}\\[\\]\\(\\),;]+\\s*$"@]
}

/// The patterns of lines that count in no language.
pub fn excluded_patterns() -> (patterns: Vec<String>)
    ensures
        texts_of(patterns@) == default_excluded_patterns(),
{
    let patterns = owned_texts(
        vec!["^\\s*//", "^\\s*#", "^\\s*[\\{\\}\\[\\]\\(\\),;]+\\s*$"],
    );
    assert(texts_of(patterns@) =~= default_excluded_patterns());
    patterns
}

/// What the registry says of a language by default: its display name and its
/// extensions.
pub struct LanguageEntry {
    pub display: Seq<char>,
    pub extensions: Seq<Seq<char>>,
}

/// The display name and the extensions of a language.
pub open spec fn entry_of(language: TrackedLanguage) -> LanguageEntry {
    LanguageEntry { display: language.display@, extensions: texts_of(language.extensions@) }
}

/// Whether a language has neither a colour nor patterns of its own.
pub open spec fn is_plain(language: TrackedLanguage) -> bool {
    &&& language.color is None
    &&& language.excluded_patterns@.len() == 0
    &&& language.compiled_excluded_patterns@.len() == 0
}

/// A language with the given name and extensions, without a colour and
/// without patterns of its own.
pub fn plain_language(display: &'static str, extensions: Vec<&'static str>) -> (language:
    TrackedLanguage)
    ensures
        entry_of(language) == (LanguageEntry {
            display: display@,
            extensions: slices_of(extensions@),
        }),
        is_plain(language),
{
    TrackedLanguage {
        display: String::from_str(display),
        extensions: owned_texts(extensions),
        color: None,
        excluded_patterns: Vec::new(),
        compiled_excluded_patterns: Vec::new(),
    }
}

/// The display names and extensions of a registry, language by language.
pub open spec fn entries_of(languages: Seq<TrackedLanguage>) -> Seq<LanguageEntry> {
    Seq::new(languages.len(), |l: int| entry_of(languages[l]))
}

/// The first part of the built-in registry.
pub open spec fn first_languages() -> Seq<LanguageEntry> {
    seq![
        LanguageEntry { display: "Rust"@, extensions: seq!["rs"@] },
        LanguageEntry { display: "Python"@, extensions: seq!["py"@, "pyi"@] },
        LanguageEntry { display: "HTML"@, extensions: seq!["html"@, "htm"@] },
        LanguageEntry { display: "CSS"@, extensions: seq!["css"@, "scss"@, "sass"@, "less"@] },
        LanguageEntry { display: "JavaScript"@, extensions: seq!["js"@, "jsx"@, "mjs"@, "cjs"@] },
        LanguageEntry { display: "TypeScript"@, extensions: seq!["ts"@, "tsx"@] },
        LanguageEntry { display: "Svelte"@, extensions: seq!["svelte"@] },
        LanguageEntry { display: "C"@, extensions: seq!["c"@, "h"@] },
        LanguageEntry { display: "C++"@, extensions: seq!["cpp"@, "cxx"@, "cc"@, "hpp"@, "hh"@] },
        LanguageEntry { display: "C#"@, extensions: seq!["cs"@] },
        LanguageEntry {
            display: "Bash / Shell"@,
            extensions: seq!["sh"@, "bash"@, "bashrc"@, "bash_profile"@, "zsh"@, "zshrc"@],
        },
    ]
}

/// The second part of the built-in registry.
pub open spec fn second_languages() -> Seq<LanguageEntry> {
    seq![
        LanguageEntry { display: "Java"@, extensions: seq!["java"@] },
        LanguageEntry { display: "Jupyter Notebook"@, extensions: seq!["ipynb"@] },
        LanguageEntry { display: "Assembly"@, extensions: seq!["asm"@, "s"@, "mips"@] },
        LanguageEntry { display: "Go"@, extensions: seq!["go"@] },
        LanguageEntry { display: "Prisma"@, extensions: seq!["prisma"@] },
        LanguageEntry { display: "Kotlin"@, extensions: seq!["kt"@, "kts"@] },
        LanguageEntry { display: "Swift"@, extensions: seq!["swift"@] },
        LanguageEntry { display: "Objective-C"@, extensions: seq!["m"@, "mm"@] },
        LanguageEntry { display: "PHP"@, extensions: seq!["php"@, "phtml"@] },
        LanguageEntry { display: "Ruby"@, extensions: seq!["rb"@, "erb"@, "gemspec"@] },
        LanguageEntry { display: "Perl"@, extensions: seq!["pl"@, "pm"@, "t"@] },
    ]
}

/// The third part of the built-in registry.
pub open spec fn third_languages() -> Seq<LanguageEntry> {
    seq![
        LanguageEntry { display: "R"@, extensions: seq!["r"@] },
        LanguageEntry { display: "Julia"@, extensions: seq!["jl"@] },
        LanguageEntry { display: "Scala"@, extensions: seq!["scala"@, "sc"@] },
        LanguageEntry { display: "Haskell"@, extensions: seq!["hs"@, "lhs"@] },
        LanguageEntry { display: "Elixir"@, extensions: seq!["ex"@, "exs"@] },
        LanguageEntry { display: "Erlang"@, extensions: seq!["erl"@, "hrl"@] },
        LanguageEntry { display: "F#"@, extensions: seq!["fs"@, "fsi"@, "fsx"@] },
        LanguageEntry { display: "OCaml"@, extensions: seq!["ml"@, "mli"@] },
        LanguageEntry { display: "Clojure"@, extensions: seq!["clj"@, "cljs"@, "cljc"@, "edn"@] },
        LanguageEntry { display: "Dart"@, extensions: seq!["dart"@] },
        LanguageEntry { display: "Makefile"@, extensions: seq!["mk"@, "make"@, "makefile"@] },
    ]
}

/// The fourth part of the built-in registry.
pub open spec fn fourth_languages() -> Seq<LanguageEntry> {
    seq![
        LanguageEntry { display: "Dockerfile"@, extensions: seq!["dockerfile"@] },
        LanguageEntry { display: "YAML"@, extensions: seq!["yml"@, "yaml"@] },
        LanguageEntry { display: "JSON"@, extensions: seq!["json"@, "json5"@] },
        LanguageEntry { display: "TOML"@, extensions: seq!["toml"@] },
        LanguageEntry { display: "INI / Config"@, extensions: seq!["ini"@, "cfg"@, "conf"@, "env"@] },
        LanguageEntry { display: "Markdown"@, extensions: seq!["md"@, "markdown"@] },
        LanguageEntry { display: "LaTeX"@, extensions: seq!["tex"@, "sty"@, "cls"@] },
        LanguageEntry { display: "SQL"@, extensions: seq!["sql"@] },
        LanguageEntry { display: "GraphQL"@, extensions: seq!["graphql"@, "gql"@] },
        LanguageEntry { display: "Vue"@, extensions: seq!["vue"@] },
        LanguageEntry { display: "Sass"@, extensions: seq!["sass"@] },
    ]
}

/// The built-in registry of tracked languages.
pub open spec fn default_languages() -> Seq<LanguageEntry> {
    first_languages() + second_languages() + third_languages() + fourth_languages()
}

/// Appends the first part of the built-in registry.
fn push_first_languages(languages: &mut Vec<TrackedLanguage>)
    requires
        forall|l: int| 0 <= l < old(languages)@.len() ==> is_plain(#[trigger] old(languages)@[l]),
    ensures
        entries_of(final(languages)@) == entries_of(old(languages)@) + first_languages(),
        forall|l: int| 0 <= l < final(languages)@.len() ==> is_plain(#[trigger] final(languages)@[l]),
{
    let ghost before = languages@;
    let language = plain_language("Rust", vec!["rs"]);
    assert(entry_of(language).extensions =~= first_languages()[0].extensions);
    languages.push(language);
    let language = plain_language("Python", vec!["py", "pyi"]);
    assert(entry_of(language).extensions =~= first_languages()[1].extensions);
    languages.push(language);
    let language = plain_language("HTML", vec!["html", "htm"]);
    assert(entry_of(language).extensions =~= first_languages()[2].extensions);
    languages.push(language);
    let language = plain_language("CSS", vec!["css", "scss", "sass", "less"]);
    assert(entry_of(language).extensions =~= first_languages()[3].extensions);
    languages.push(language);
    let language = plain_language("JavaScript", vec!["js", "jsx", "mjs", "cjs"]);
    assert(entry_of(language).extensions =~= first_languages()[4].extensions);
    languages.push(language);
    let language = plain_language("TypeScript", vec!["ts", "tsx"]);
    assert(entry_of(language).extensions =~= first_languages()[5].extensions);
    languages.push(language);
    let language = plain_language("Svelte", vec!["svelte"]);
    assert(entry_of(language).extensions =~= first_languages()[6].extensions);
    languages.push(language);
    let language = plain_language("C", vec!["c", "h"]);
    assert(entry_of(language).extensions =~= first_languages()[7].extensions);
    languages.push(language);
    let language = plain_language("C++", vec!["cpp", "cxx", "cc", "hpp", "hh"]);
    assert(entry_of(language).extensions =~= first_languages()[8].extensions);
    languages.push(language);
    let language = plain_language("C#", vec!["cs"]);
    assert(entry_of(language).extensions =~= first_languages()[9].extensions);
    languages.push(language);
    let language = plain_language(
        "Bash / Shell",
        vec!["sh", "bash", "bashrc", "bash_profile", "zsh", "zshrc"],
    );
    assert(entry_of(language).extensions =~= first_languages()[10].extensions);
    languages.push(language);
    assert(languages@.len() == before.len() + 11);
    assert(entries_of(languages@) =~= entries_of(before) + first_languages());
}

/// Appends the second part of the built-in registry.
fn push_second_languages(languages: &mut Vec<TrackedLanguage>)
    requires
        forall|l: int| 0 <= l < old(languages)@.len() ==> is_plain(#[trigger] old(languages)@[l]),
    ensures
        entries_of(final(languages)@) == entries_of(old(languages)@) + second_languages(),
        forall|l: int| 0 <= l < final(languages)@.len() ==> is_plain(#[trigger] final(languages)@[l]),
{
    let ghost before = languages@;
    let language = plain_language("Java", vec!["java"]);
    assert(entry_of(language).extensions =~= second_languages()[0].extensions);
    languages.push(language);
    let language = plain_language("Jupyter Notebook", vec!["ipynb"]);
    assert(entry_of(language).extensions =~= second_languages()[1].extensions);
    languages.push(language);
    let language = plain_language("Assembly", vec!["asm", "s", "mips"]);
    assert(entry_of(language).extensions =~= second_languages()[2].extensions);
    languages.push(language);
    let language = plain_language("Go", vec!["go"]);
    assert(entry_of(language).extensions =~= second_languages()[3].extensions);
    languages.push(language);
    let language = plain_language("Prisma", vec!["prisma"]);
    assert(entry_of(language).extensions =~= second_languages()[4].extensions);
    languages.push(language);
    let language = plain_language("Kotlin", vec!["kt", "kts"]);
    assert(entry_of(language).extensions =~= second_languages()[5].extensions);
    languages.push(language);
    let language = plain_language("Swift", vec!["swift"]);
    assert(entry_of(language).extensions =~= second_languages()[6].extensions);
    languages.push(language);
    let language = plain_language("Objective-C", vec!["m", "mm"]);
    assert(entry_of(language).extensions =~= second_languages()[7].extensions);
    languages.push(language);
    let language = plain_language("PHP", vec!["php", "phtml"]);
    assert(entry_of(language).extensions =~= second_languages()[8].extensions);
    languages.push(language);
    let language = plain_language("Ruby", vec!["rb", "erb", "gemspec"]);
    assert(entry_of(language).extensions =~= second_languages()[9].extensions);
    languages.push(language);
    let language = plain_language("Perl", vec!["pl", "pm", "t"]);
    assert(entry_of(language).extensions =~= second_languages()[10].extensions);
    languages.push(language);
    assert(languages@.len() == before.len() + 11);
    assert(entries_of(languages@) =~= entries_of(before) + second_languages());
}

/// Appends the third part of the built-in registry.
fn push_third_languages(languages: &mut Vec<TrackedLanguage>)
    requires
        forall|l: int| 0 <= l < old(languages)@.len() ==> is_plain(#[trigger] old(languages)@[l]),
    ensures
        entries_of(final(languages)@) == entries_of(old(languages)@) + third_languages(),
        forall|l: int| 0 <= l < final(languages)@.len() ==> is_plain(#[trigger] final(languages)@[l]),
{
    let ghost before = languages@;
    let language = plain_language("R", vec!["r"]);
    assert(entry_of(language).extensions =~= third_languages()[0].extensions);
    languages.push(language);
    let language = plain_language("Julia", vec!["jl"]);
    assert(entry_of(language).extensions =~= third_languages()[1].extensions);
    languages.push(language);
    let language = plain_language("Scala", vec!["scala", "sc"]);
    assert(entry_of(language).extensions =~= third_languages()[2].extensions);
    languages.push(language);
    let language = plain_language("Haskell", vec!["hs", "lhs"]);
    assert(entry_of(language).extensions =~= third_languages()[3].extensions);
    languages.push(language);
    let language = plain_language("Elixir", vec!["ex", "exs"]);
    assert(entry_of(language).extensions =~= third_languages()[4].extensions);
    languages.push(language);
    let language = plain_language("Erlang", vec!["erl", "hrl"]);
    assert(entry_of(language).extensions =~= third_languages()[5].extensions);
    languages.push(language);
    let language = plain_language("F#", vec!["fs", "fsi", "fsx"]);
    assert(entry_of(language).extensions =~= third_languages()[6].extensions);
    languages.push(language);
    let language = plain_language("OCaml", vec!["ml", "mli"]);
    assert(entry_of(language).extensions =~= third_languages()[7].extensions);
    languages.push(language);
    let language = plain_language("Clojure", vec!["clj", "cljs", "cljc", "edn"]);
    assert(entry_of(language).extensions =~= third_languages()[8].extensions);
    languages.push(language);
    let language = plain_language("Dart", vec!["dart"]);
    assert(entry_of(language).extensions =~= third_languages()[9].extensions);
    languages.push(language);
    let language = plain_language("Makefile", vec!["mk", "make", "makefile"]);
    assert(entry_of(language).extensions =~= third_languages()[10].extensions);
    languages.push(language);
    assert(languages@.len() == before.len() + 11);
    assert(entries_of(languages@) =~= entries_of(before) + third_languages());
}

/// Appends the fourth part of the built-in registry.
fn push_fourth_languages(languages: &mut Vec<TrackedLanguage>)
    requires
        forall|l: int| 0 <= l < old(languages)@.len() ==> is_plain(#[trigger] old(languages)@[l]),
    ensures
        entries_of(final(languages)@) == entries_of(old(languages)@) + fourth_languages(),
        forall|l: int| 0 <= l < final(languages)@.len() ==> is_plain(#[trigger] final(languages)@[l]),
{
    let ghost before = languages@;
    let language = plain_language("Dockerfile", vec!["dockerfile"]);
    assert(entry_of(language).extensions =~= fourth_languages()[0].extensions);
    languages.push(language);
    let language = plain_language("YAML", vec!["yml", "yaml"]);
    assert(entry_of(language).extensions =~= fourth_languages()[1].extensions);
    languages.push(language);
    let language = plain_language("JSON", vec!["json", "json5"]);
    assert(entry_of(language).extensions =~= fourth_languages()[2].extensions);
    languages.push(language);
    let language = plain_language("TOML", vec!["toml"]);
    assert(entry_of(language).extensions =~= fourth_languages()[3].extensions);
    languages.push(language);
    let language = plain_language("INI / Config", vec!["ini", "cfg", "conf", "env"]);
    assert(entry_of(language).extensions =~= fourth_languages()[4].extensions);
    languages.push(language);
    let language = plain_language("Markdown", vec!["md", "markdown"]);
    assert(entry_of(language).extensions =~= fourth_languages()[5].extensions);
    languages.push(language);
    let language = plain_language("LaTeX", vec!["tex", "sty", "cls"]);
    assert(entry_of(language).extensions =~= fourth_languages()[6].extensions);
    languages.push(language);
    let language = plain_language("SQL", vec!["sql"]);
    assert(entry_of(language).extensions =~= fourth_languages()[7].extensions);
    languages.push(language);
    let language = plain_language("GraphQL", vec!["graphql", "gql"]);
    assert(entry_of(language).extensions =~= fourth_languages()[8].extensions);
    languages.push(language);
    let language = plain_language("Vue", vec!["vue"]);
    assert(entry_of(language).extensions =~= fourth_languages()[9].extensions);
    languages.push(language);
    let language = plain_language("Sass", vec!["sass"]);
    assert(entry_of(language).extensions =~= fourth_languages()[10].extensions);
    languages.push(language);
    assert(languages@.len() == before.len() + 11);
    assert(entries_of(languages@) =~= entries_of(before) + fourth_languages());
}

/// The built-in registry of tracked languages: each with its display name and
/// extensions, none with a colour or patterns of its own.
pub fn tracked_languages() -> (languages: Vec<TrackedLanguage>)
    ensures
        entries_of(languages@) == default_languages(),
        forall|l: int| 0 <= l < languages@.len() ==> is_plain(#[trigger] languages@[l]),
{
    let mut languages: Vec<TrackedLanguage> = Vec::new();
    assert(entries_of(languages@) =~= Seq::empty());
    push_first_languages(&mut languages);
    push_second_languages(&mut languages);
    push_third_languages(&mut languages);
    push_fourth_languages(&mut languages);
    assert(entries_of(languages@) =~= default_languages());
    languages
}

/// Whether no two languages share a display name.
pub open spec fn displays_distinct(languages: Seq<LanguageEntry>) -> bool {
    forall|i: int, j: int|
        0 <= i < j < languages.len() ==> (#[trigger] languages[i]).display != (
        #[trigger] languages[j]).display
}

/// Whether two texts differ in their length, their first or their last
/// character.
pub open spec fn differ_at_ends(a: Seq<char>, b: Seq<char>) -> bool {
    a.len() != b.len() || a.len() == 0 || a[0] != b[0] || a.last() != b.last()
}

/// Whether the display name differs at its ends from the names of the first
/// `n` languages.
pub open spec fn ends_differ_from(languages: Seq<LanguageEntry>, display: Seq<char>, n: int) -> bool
    decreases n,
{
    n <= 0 || (differ_at_ends(languages[n - 1].display, display) && ends_differ_from(
        languages,
        display,
        n - 1,
    ))
}

/// Whether the display names of the first `n` languages differ at their ends,
/// each from all before it.
pub open spec fn ends_differ_among(languages: Seq<LanguageEntry>, n: int) -> bool
    decreases n,
{
    n <= 0 || (ends_differ_from(languages, languages[n - 1].display, n - 1)
        && ends_differ_among(languages, n - 1))
}

/// A display name that differs at its ends from the names of the first `n`
/// languages is the name of none of them, unless it is empty.
pub proof fn lemma_ends_differ_from(languages: Seq<LanguageEntry>, display: Seq<char>, n: int, i: int)
    requires
        ends_differ_from(languages, display, n),
        display.len() > 0,
        0 <= i < n,
    ensures
        languages[i].display != display,
    decreases n,
{
    if i < n - 1 {
        lemma_ends_differ_from(languages, display, n - 1, i);
    }
}

/// Where the display names of a registry differ at their ends, each from all
/// before it, and none is empty, no two languages share a display name.
pub proof fn lemma_ends_differ_among(languages: Seq<LanguageEntry>, n: int)
    requires
        0 <= n <= languages.len(),
        ends_differ_among(languages, n),
        forall|k: int| 0 <= k < n ==> (#[trigger] languages[k]).display.len() > 0,
    ensures
        displays_distinct(languages.take(n)),
    decreases n,
{
    if n > 0 {
        lemma_ends_differ_among(languages, n - 1);
        let front = languages.take(n);
        assert forall|i: int, j: int| 0 <= i < j < front.len() implies (#[trigger] front[i]).display
            != (#[trigger] front[j]).display by {
            if j < n - 1 {
                let shorter = languages.take(n - 1);
                assert(shorter[i] == front[i] && shorter[j] == front[j]);
            } else {
                lemma_ends_differ_from(languages, languages[n - 1].display, n - 1, i);
            }
        }
    }
}

/// No two languages of the built-in registry share a display name.
pub proof fn lemma_default_displays_distinct()
    ensures
        displays_distinct(default_languages()),
{
    reveal_strlit("Rust");
    reveal_strlit("Python");
    reveal_strlit("HTML");
    reveal_strlit("CSS");
    reveal_strlit("JavaScript");
    reveal_strlit("TypeScript");
    reveal_strlit("Svelte");
    reveal_strlit("C");
    reveal_strlit("C++");
    reveal_strlit("C#");
    reveal_strlit("Bash / Shell");
    reveal_strlit("Java");
    reveal_strlit("Jupyter Notebook");
    reveal_strlit("Assembly");
    reveal_strlit("Go");
    reveal_strlit("Prisma");
    reveal_strlit("Kotlin");
    reveal_strlit("Swift");
    reveal_strlit("Objective-C");
    reveal_strlit("PHP");
    reveal_strlit("Ruby");
    reveal_strlit("Perl");
    reveal_strlit("R");
    reveal_strlit("Julia");
    reveal_strlit("Scala");
    reveal_strlit("Haskell");
    reveal_strlit("Elixir");
    reveal_strlit("Erlang");
    reveal_strlit("F#");
    reveal_strlit("OCaml");
    reveal_strlit("Clojure");
    reveal_strlit("Dart");
    reveal_strlit("Makefile");
    reveal_strlit("Dockerfile");
    reveal_strlit("YAML");
    reveal_strlit("JSON");
    reveal_strlit("TOML");
    reveal_strlit("INI / Config");
    reveal_strlit("Markdown");
    reveal_strlit("LaTeX");
    reveal_strlit("SQL");
    reveal_strlit("GraphQL");
    reveal_strlit("Vue");
    reveal_strlit("Sass");
    let all = default_languages();
    assert(all.len() == 44);
    assert(ends_differ_among(all, 44)) by {
        reveal_with_fuel(ends_differ_from, 45);
        reveal_with_fuel(ends_differ_among, 45);
    }
    lemma_ends_differ_among(all, 44);
    assert(all.take(44) =~= all);
}

} // verus!
