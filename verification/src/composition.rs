//! The composition engine: which lines of a file count, and how the counts of
//! all files add up to one total per tracked language.

use crate::config::{Config, TrackedLanguage};
use crate::pattern::{any_pattern_matches, matches_any};
use crate::text::{
    extension_of, file_extension, is_blank, line_is_blank, lines_of, list_contains,
    lowercase_of, lowered, lowered_contains, split_lines, texts_of,
};
use crate::totals::ExtensionTotals;
use vstd::prelude::*;

verus! {

/// A file handed over for counting.
#[derive(Clone, Debug)]
pub struct SourceFile {
    /// The file's own name, without its directory.
    pub name: String,
    /// The file's text, where it could be read as text.
    pub content: Option<String>,
}

/// One line of the result: a tracked language and the number of countable
/// lines in its files.
#[derive(Clone, Debug)]
pub struct CompositionEntry<'a> {
    pub language: &'a TrackedLanguage,
    pub line_count: usize,
}

/// Whether a line counts in a file of `language`. It does unless it is blank
/// and blank lines are ignored, or one of the global patterns matches in it,
/// or one of the language's own patterns does.
pub open spec fn is_countable(config: Config, language: TrackedLanguage, line: Seq<char>) -> bool {
    !is_excluded(config, language, line)
}

/// Whether a line is excluded from the count of a file of `language`.
pub open spec fn is_excluded(config: Config, language: TrackedLanguage, line: Seq<char>) -> bool {
    ||| config.ignore_empty_lines && is_blank(line)
    ||| any_pattern_matches(config.compiled_excluded_patterns@, line)
    ||| any_pattern_matches(language.compiled_excluded_patterns@, line)
}

/// How many of the lines count.
pub open spec fn countable_lines(config: Config, language: TrackedLanguage, lines: Seq<Seq<char>>) -> nat
    decreases lines.len(),
{
    if lines.len() == 0 {
        0
    } else {
        countable_lines(config, language, lines.drop_last()) + if is_countable(
            config,
            language,
            lines.last(),
        ) {
            1nat
        } else {
            0nat
        }
    }
}

/// How many of the lines are excluded.
pub open spec fn excluded_lines(config: Config, language: TrackedLanguage, lines: Seq<Seq<char>>) -> nat
    decreases lines.len(),
{
    if lines.len() == 0 {
        0
    } else {
        excluded_lines(config, language, lines.drop_last()) + if is_excluded(
            config,
            language,
            lines.last(),
        ) {
            1nat
        } else {
            0nat
        }
    }
}

/// Whether a language lists the extension: the extension is the lower-case
/// form of one of the extensions of the language. Extensions are compared in
/// lower case wherever they are compared, so the registry may spell them in
/// any case.
pub open spec fn lists_extension(language: TrackedLanguage, extension: Seq<char>) -> bool {
    lowered(language.extensions@).contains(extension)
}

/// The first language at or after `from` that lists the extension.
pub open spec fn owner_from(languages: Seq<TrackedLanguage>, extension: Seq<char>, from: int) -> Option<
    int,
>
    decreases languages.len() - from,
{
    if from < 0 || from >= languages.len() {
        None
    } else if lists_extension(languages[from], extension) {
        Some(from)
    } else {
        owner_from(languages, extension, from + 1)
    }
}

/// The language that owns an extension: the first in the registry that
/// lists it.
pub open spec fn owner_of(languages: Seq<TrackedLanguage>, extension: Seq<char>) -> Option<int> {
    owner_from(languages, extension, 0)
}

/// The owner of an extension is a language of the registry that lists it,
/// and no language before it does.
pub proof fn lemma_owner_from(languages: Seq<TrackedLanguage>, extension: Seq<char>, from: int)
    requires
        0 <= from,
    ensures
        match owner_from(languages, extension, from) {
            Some(l) => from <= l < languages.len() && lists_extension(languages[l], extension)
                && forall|j: int| from <= j < l ==> !lists_extension(#[trigger] languages[j], extension),
            None => forall|j: int|
                from <= j < languages.len() ==> !lists_extension(#[trigger] languages[j], extension),
        },
    decreases languages.len() - from,
{
    if from < languages.len() && !lists_extension(languages[from], extension) {
        lemma_owner_from(languages, extension, from + 1);
    }
}

/// Finds the language that owns an extension given in lower case.
pub fn find_owner(languages: &Vec<TrackedLanguage>, extension: &str) -> (owner: Option<usize>)
    ensures
        match owner {
            Some(l) => owner_of(languages@, extension@) == Some(l as int) && l < languages@.len(),
            None => owner_of(languages@, extension@) is None,
        },
{
    let mut l: usize = 0;
    while l < languages.len()
        invariant
            l <= languages.len(),
            owner_of(languages@, extension@) == owner_from(languages@, extension@, l as int),
        decreases languages.len() - l,
    {
        if lowered_contains(&languages[l].extensions, extension) {
            return Some(l);
        }
        l += 1;
    }
    None
}

/// The number of countable lines in a text whose file has the given
/// extension; none where no language owns the extension.
pub open spec fn counted_lines(config: Config, extension: Seq<char>, content: Seq<char>) -> Option<nat> {
    match owner_of(config.languages@, extension) {
        Some(l) => Some(countable_lines(config, config.languages@[l], lines_of(content))),
        None => None,
    }
}

/// Counts the countable lines of a text, by the rules of the language that
/// owns the extension.
pub fn count_lines(content: &str, config: &Config, ext: &str) -> (count: Option<usize>)
    ensures
        match count {
            Some(n) => counted_lines(*config, ext@, content@) == Some(n as nat),
            None => counted_lines(*config, ext@, content@) is None,
        },
{
    let owner = match find_owner(&config.languages, ext) {
        Some(l) => l,
        None => {
            return None;
        },
    };
    let language = &config.languages[owner];
    let lines = split_lines(content);
    let ghost all = lines_of(content@);
    let mut count: usize = 0;
    let mut i: usize = 0;
    assert(all.take(0) =~= Seq::empty());
    while i < lines.len()
        invariant
            i <= lines.len(),
            texts_of(lines@) == all,
            count <= i,
            count == countable_lines(*config, *language, all.take(i as int)),
        decreases lines.len() - i,
    {
        let line = lines[i].as_str();
        proof {
            assert(all.take(i + 1).drop_last() =~= all.take(i as int));
            assert(all[i as int] == lines@[i as int]@);
            assert(all.take(i + 1).last() == line@);
        }
        let excluded = (config.ignore_empty_lines && line_is_blank(line)) || matches_any(
            &config.compiled_excluded_patterns,
            line,
        ) || matches_any(&language.compiled_excluded_patterns, line);
        if !excluded {
            count += 1;
        }
        i += 1;
    }
    assert(all.take(i as int) =~= all);
    Some(count)
}

/// What a file adds to the totals: the lower-case form of its extension and
/// the number of its countable lines. A file adds nothing where its name has
/// no extension, where it could not be read, or where no language owns its
/// extension.
pub open spec fn contribution_of(config: Config, file: SourceFile) -> Option<(Seq<char>, nat)> {
    match (extension_of(file.name@), file.content) {
        (Some(extension), Some(content)) => {
            let lower = lowercase_of(extension);
            match counted_lines(config, lower, content@) {
                Some(n) => Some((lower, n)),
                None => None,
            }
        },
        _ => None,
    }
}

/// Counts one file.
pub fn count_file(config: &Config, file: &SourceFile) -> (counted: Option<(String, usize)>)
    ensures
        match counted {
            Some((extension, n)) => contribution_of(*config, *file) == Some((extension@, n as nat)),
            None => contribution_of(*config, *file) is None,
        },
{
    let extension = match file_extension(file.name.as_str()) {
        Some(e) => e.to_lowercase(),
        None => {
            return None;
        },
    };
    let content = match &file.content {
        Some(text) => text,
        None => {
            return None;
        },
    };
    match count_lines(content.as_str(), config, extension.as_str()) {
        Some(n) => Some((extension, n)),
        None => None,
    }
}

/// The countable lines that a file adds to the total of `extension`.
pub open spec fn lines_for(config: Config, file: SourceFile, extension: Seq<char>) -> nat {
    match contribution_of(config, file) {
        Some((own, n)) => if own == extension {
            n
        } else {
            0
        },
        None => 0,
    }
}

/// The total of an extension: the countable lines of all files with that
/// extension.
pub open spec fn extension_total(config: Config, files: Seq<SourceFile>, extension: Seq<char>) -> nat
    decreases files.len(),
{
    if files.len() == 0 {
        0
    } else {
        extension_total(config, files.drop_last(), extension) + lines_for(
            config,
            files.last(),
            extension,
        )
    }
}

/// Whether the extension at position `e` of a list repeats, in lower case,
/// one that stands before it.
pub open spec fn repeats_earlier(extensions: Seq<String>, e: int) -> bool {
    lowered(extensions.take(e)).contains(lowercase_of(extensions[e]@))
}

/// The totals of the listed extensions, added up. The extensions are taken
/// in lower case and as a set: one that the list repeats is added once.
pub open spec fn total_over(config: Config, files: Seq<SourceFile>, extensions: Seq<String>) -> nat
    decreases extensions.len(),
{
    if extensions.len() == 0 {
        0
    } else {
        total_over(config, files, extensions.drop_last()) + if repeats_earlier(
            extensions,
            extensions.len() - 1,
        ) {
            0
        } else {
            extension_total(config, files, lowercase_of(extensions.last()@))
        }
    }
}

/// The total of the language at position `l` of the registry: the totals of
/// the extensions it lists, each taken in lower case and once.
pub open spec fn language_total(config: Config, files: Seq<SourceFile>, l: int) -> nat {
    total_over(config, files, config.languages@[l].extensions@)
}

/// The result for the first `n` languages of the registry: the position and
/// the total of each language whose total is not zero, in registry order.
pub open spec fn composition_among(config: Config, files: Seq<SourceFile>, n: int) -> Seq<(int, nat)>
    decreases n,
{
    if n <= 0 {
        Seq::empty()
    } else if language_total(config, files, n - 1) > 0 {
        composition_among(config, files, n - 1).push((n - 1, language_total(config, files, n - 1)))
    } else {
        composition_among(config, files, n - 1)
    }
}

/// The composition of a set of files: one entry for each language of the
/// registry with at least one countable line. The lines of an extension count
/// for every language that lists the extension, so an extension that two
/// languages share is counted under both; within one language an extension
/// counts once, however often and in whatever case the language lists it.
pub open spec fn composition_of(config: Config, files: Seq<SourceFile>) -> Seq<(int, nat)> {
    composition_among(config, files, config.languages@.len() as int)
}

/// Whether every total of a run can be held in a `usize`.
pub open spec fn totals_fit(config: Config, files: Seq<SourceFile>) -> bool {
    &&& forall|extension: Seq<char>| #[trigger]
        extension_total(config, files, extension) <= usize::MAX
    &&& forall|l: int|
        0 <= l < config.languages@.len() ==> #[trigger] language_total(config, files, l)
            <= usize::MAX
}

/// Whether `entries` spell out `composition`: entry by entry the same
/// language of the registry and the same number of lines.
pub open spec fn spells(
    entries: Seq<CompositionEntry>,
    config: Config,
    composition: Seq<(int, nat)>,
) -> bool {
    &&& entries.len() == composition.len()
    &&& forall|k: int|
        0 <= k < entries.len() ==> {
            &&& 0 <= composition[k].0 < config.languages@.len()
            &&& *(#[trigger] entries[k]).language == config.languages@[composition[k].0]
            &&& entries[k].line_count == composition[k].1
        }
}

/// A total never shrinks when more files are counted.
pub proof fn lemma_extension_total_grows(
    config: Config,
    files: Seq<SourceFile>,
    n: int,
    extension: Seq<char>,
)
    requires
        0 <= n <= files.len(),
    ensures
        extension_total(config, files.take(n), extension) <= extension_total(
            config,
            files,
            extension,
        ),
    decreases files.len() - n,
{
    if n < files.len() {
        lemma_extension_total_grows(config, files, n + 1, extension);
        assert(files.take(n + 1).drop_last() =~= files.take(n));
    } else {
        assert(files.take(n) =~= files);
    }
}

/// Adds up the countable lines of all files, extension by extension. `None`
/// is returned where a total does not fit in a `usize`.
pub fn accumulate(config: &Config, files: &Vec<SourceFile>) -> (res: Option<ExtensionTotals>)
    ensures
        res is Some <==> forall|extension: Seq<char>| #[trigger]
            extension_total(*config, files@, extension) <= usize::MAX,
        res matches Some(totals) ==> totals.wf() && forall|extension: Seq<char>| #[trigger]
            totals.total(extension) == extension_total(*config, files@, extension),
{
    let mut totals = ExtensionTotals::new();
    let mut i: usize = 0;
    assert(files@.take(0) =~= Seq::empty());
    while i < files.len()
        invariant
            i <= files.len(),
            totals.wf(),
            forall|extension: Seq<char>| #[trigger]
                totals.total(extension) == extension_total(
                    *config,
                    files@.take(i as int),
                    extension,
                ),
        decreases files.len() - i,
    {
        proof {
            assert(files@.take(i + 1).drop_last() =~= files@.take(i as int));
            assert(files@.take(i + 1).last() == files@[i as int]);
        }
        match count_file(config, &files[i]) {
            Some((extension, lines)) => {
                let ghost key = extension@;
                if !totals.add(extension, lines) {
                    proof {
                        lemma_extension_total_grows(*config, files@, i + 1, key);
                        assert(extension_total(*config, files@, key) > usize::MAX);
                    }
                    return None;
                }
            },
            None => {},
        }
        i += 1;
    }
    proof {
        assert(files@.take(i as int) =~= files@);
        assert forall|extension: Seq<char>| #[trigger]
            extension_total(*config, files@, extension) <= usize::MAX by {
            totals.lemma_total_fits(extension);
        }
    }
    Some(totals)
}

/// The totals of the listed extensions, added up. The extensions are taken
/// in lower case and as a set: one that the list repeats is added once.
pub open spec fn sum_over(totals: ExtensionTotals, extensions: Seq<String>) -> nat
    decreases extensions.len(),
{
    if extensions.len() == 0 {
        0
    } else {
        sum_over(totals, extensions.drop_last()) + if repeats_earlier(
            extensions,
            extensions.len() - 1,
        ) {
            0
        } else {
            totals.total(lowercase_of(extensions.last()@))
        }
    }
}

/// The sum over a list of extensions never shrinks when the list grows.
pub proof fn lemma_sum_over_grows(totals: ExtensionTotals, extensions: Seq<String>, n: int)
    requires
        0 <= n <= extensions.len(),
    ensures
        sum_over(totals, extensions.take(n)) <= sum_over(totals, extensions),
    decreases extensions.len() - n,
{
    if n < extensions.len() {
        lemma_sum_over_grows(totals, extensions, n + 1);
        assert(extensions.take(n + 1).drop_last() =~= extensions.take(n));
    } else {
        assert(extensions.take(n) =~= extensions);
    }
}

/// The result that the totals give for the first `n` languages of the
/// registry: the position and the sum of each language whose sum is not zero,
/// in registry order.
pub open spec fn composed_among(config: Config, totals: ExtensionTotals, n: int) -> Seq<(int, nat)>
    decreases n,
{
    if n <= 0 {
        Seq::empty()
    } else if sum_over(totals, config.languages@[n - 1].extensions@) > 0 {
        composed_among(config, totals, n - 1).push(
            (n - 1, sum_over(totals, config.languages@[n - 1].extensions@)),
        )
    } else {
        composed_among(config, totals, n - 1)
    }
}

/// Totals that agree with the files, extension by extension, add up to the
/// same sums as the files.
pub proof fn lemma_sum_over_files(
    config: Config,
    files: Seq<SourceFile>,
    totals: ExtensionTotals,
    extensions: Seq<String>,
)
    requires
        forall|extension: Seq<char>| #[trigger]
            totals.total(extension) == extension_total(config, files, extension),
    ensures
        sum_over(totals, extensions) == total_over(config, files, extensions),
    decreases extensions.len(),
{
    if extensions.len() > 0 {
        lemma_sum_over_files(config, files, totals, extensions.drop_last());
    }
}

/// Totals that agree with the files, extension by extension, give the
/// composition of the files.
pub proof fn lemma_composed_of_files(
    config: Config,
    files: Seq<SourceFile>,
    totals: ExtensionTotals,
    n: int,
)
    requires
        n <= config.languages@.len(),
        forall|extension: Seq<char>| #[trigger]
            totals.total(extension) == extension_total(config, files, extension),
    ensures
        composed_among(config, totals, n) == composition_among(config, files, n),
    decreases n,
{
    if n > 0 {
        lemma_composed_of_files(config, files, totals, n - 1);
        lemma_sum_over_files(config, files, totals, config.languages@[n - 1].extensions@);
    }
}

/// Adds up the totals of the listed extensions, each taken in lower case and
/// once. `None` is returned where the sum does not fit in a `usize`.
pub fn sum_totals(totals: &ExtensionTotals, extensions: &Vec<String>) -> (sum: Option<usize>)
    requires
        totals.wf(),
    ensures
        match sum {
            Some(n) => n == sum_over(*totals, extensions@),
            None => sum_over(*totals, extensions@) > usize::MAX,
        },
{
    let mut sum: usize = 0;
    let mut seen: Vec<String> = Vec::with_capacity(extensions.len());
    let mut e: usize = 0;
    assert(extensions@.take(0) =~= Seq::empty());
    assert(texts_of(seen@) =~= lowered(extensions@.take(0)));
    while e < extensions.len()
        invariant
            e <= extensions.len(),
            totals.wf(),
            texts_of(seen@) == lowered(extensions@.take(e as int)),
            sum == sum_over(*totals, extensions@.take(e as int)),
        decreases extensions.len() - e,
    {
        let lower = extensions[e].as_str().to_lowercase();
        proof {
            let longer = extensions@.take(e + 1);
            assert(longer.drop_last() =~= extensions@.take(e as int));
            assert(longer.take(e as int) =~= extensions@.take(e as int));
            assert(longer.last() == extensions@[e as int]);
        }
        if !list_contains(&seen, lower.as_str()) {
            match sum.checked_add(totals.get(&lower)) {
                Some(raised) => {
                    sum = raised;
                },
                None => {
                    proof {
                        lemma_sum_over_grows(*totals, extensions@, e + 1);
                    }
                    return None;
                },
            }
        }
        let ghost before = texts_of(seen@);
        seen.push(lower);
        proof {
            assert(texts_of(seen@) =~= before.push(lower@));
            assert(lowered(extensions@.take(e + 1)) =~= lowered(extensions@.take(e as int)).push(
                lower@,
            ));
        }
        e += 1;
    }
    assert(extensions@.take(e as int) =~= extensions@);
    Some(sum)
}

/// Turns the totals of the extensions into the result: one entry for each
/// language of the registry whose extensions add up to more than zero. `None`
/// is returned where a sum does not fit in a `usize`.
pub fn compose<'a>(config: &'a Config, totals: &ExtensionTotals) -> (res: Option<
    Vec<CompositionEntry<'a>>,
>)
    requires
        totals.wf(),
    ensures
        res is Some <==> forall|l: int|
            0 <= l < config.languages@.len() ==> sum_over(
                *totals,
                (#[trigger] config.languages@[l]).extensions@,
            ) <= usize::MAX,
        res matches Some(entries) ==> spells(
            entries@,
            *config,
            composed_among(*config, *totals, config.languages@.len() as int),
        ),
{
    let mut composition: Vec<CompositionEntry<'a>> = Vec::new();
    let mut l: usize = 0;
    while l < config.languages.len()
        invariant
            l <= config.languages@.len(),
            totals.wf(),
            forall|j: int|
                0 <= j < l ==> sum_over(*totals, (#[trigger] config.languages@[j]).extensions@)
                    <= usize::MAX,
            spells(composition@, *config, composed_among(*config, *totals, l as int)),
        decreases config.languages@.len() - l,
    {
        let language = &config.languages[l];
        let total_lines = match sum_totals(totals, &language.extensions) {
            Some(n) => n,
            None => {
                return None;
            },
        };
        if total_lines != 0 {
            composition.push(CompositionEntry { language, line_count: total_lines });
        }
        l += 1;
    }
    Some(composition)
}

/// Computes the composition of a set of files: for each tracked language
/// with at least one countable line, the number of countable lines in the
/// files of its extensions. `None` is returned where a total does not fit in
/// a `usize`.
pub fn get_composition<'a>(config: &'a Config, files: &Vec<SourceFile>) -> (res: Option<
    Vec<CompositionEntry<'a>>,
>)
    ensures
        res is Some <==> totals_fit(*config, files@),
        res matches Some(entries) ==> spells(entries@, *config, composition_of(*config, files@)),
{
    let totals = match accumulate(config, files) {
        Some(totals) => totals,
        None => {
            return None;
        },
    };
    proof {
        lemma_composed_of_files(*config, files@, totals, config.languages@.len() as int);
        assert forall|l: int| 0 <= l < config.languages@.len() implies sum_over(
            totals,
            (#[trigger] config.languages@[l]).extensions@,
        ) == language_total(*config, files@, l) by {
            lemma_sum_over_files(*config, files@, totals, config.languages@[l].extensions@);
        }
    }
    compose(config, &totals)
}

} // verus!
