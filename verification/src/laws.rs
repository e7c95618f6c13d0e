//! What holds of every run: laws that relate the collector and the
//! composition engine to their inputs, each proved from the definitions the
//! contracts use.

use crate::collector::{
    eligible_entries, file_passes, has_extension_among, is_eligible, lowered_extensions,
    matchers_for, passing_among, positions,
};
use crate::composition::{
    composition_among, composition_of, contribution_of, countable_lines, excluded_lines,
    extension_total, language_total, lemma_owner_from, lines_for, lists_extension, owner_of,
    repeats_earlier, spells, total_over, totals_fit, CompositionEntry, SourceFile,
};
use crate::config::{Config, TrackedLanguage};
use crate::engine::counted_files;
use crate::pattern::any_pattern_matches;
use crate::resolver::MatcherView;
use crate::text::{extension_of, lines_of, lowercase_of, lowered};
use crate::walk::{EntryKind, WalkEntry};
use vstd::prelude::*;

verus! {

/// Every line is judged once: it is either counted or excluded, so the two
/// numbers add up to the number of lines, however many reasons exclude a line.
pub proof fn lemma_each_line_judged_once(
    config: Config,
    language: TrackedLanguage,
    lines: Seq<Seq<char>>,
)
    ensures
        countable_lines(config, language, lines) + excluded_lines(config, language, lines)
            == lines.len(),
    decreases lines.len(),
{
    if lines.len() > 0 {
        lemma_each_line_judged_once(config, language, lines.drop_last());
    }
}

/// A line in which both a global pattern and a pattern of the language match
/// takes exactly one line off the count, as a line does in which only one of
/// them matches.
pub proof fn lemma_doubly_excluded_line_counts_once(
    config: Config,
    language: TrackedLanguage,
    lines: Seq<Seq<char>>,
    line: Seq<char>,
)
    requires
        any_pattern_matches(config.compiled_excluded_patterns@, line),
        any_pattern_matches(language.compiled_excluded_patterns@, line),
    ensures
        countable_lines(config, language, lines.push(line)) == countable_lines(
            config,
            language,
            lines,
        ),
        excluded_lines(config, language, lines.push(line)) == excluded_lines(
            config,
            language,
            lines,
        ) + 1,
{
    assert(lines.push(line).drop_last() =~= lines);
}

/// An empty file has no lines, so it adds nothing to any total, whatever the
/// configuration says of blank lines.
pub proof fn lemma_empty_file_adds_nothing(config: Config, file: SourceFile, extension: Seq<char>)
    requires
        file.content matches Some(content) && content@.len() == 0,
    ensures
        lines_for(config, file, extension) == 0,
{
    assert(lines_of(file.content->0@).len() == 0);
}

/// A file whose extension no tracked language lists adds nothing to any
/// total.
pub proof fn lemma_untracked_file_adds_nothing(config: Config, file: SourceFile, extension: Seq<char>)
    requires
        extension_of(file.name@) matches Some(own) ==> forall|l: int|
            0 <= l < config.languages@.len() ==> !lists_extension(
                #[trigger] config.languages@[l],
                lowercase_of(own),
            ),
    ensures
        contribution_of(config, file) is None,
        lines_for(config, file, extension) == 0,
{
    if let Some(own) = extension_of(file.name@) {
        lemma_owner_from(config.languages@, lowercase_of(own), 0);
    }
}

/// Two sets of files with the same total for every extension have the same
/// sum over any list of extensions.
pub proof fn lemma_total_over_from_totals(
    config: Config,
    first: Seq<SourceFile>,
    second: Seq<SourceFile>,
    extensions: Seq<String>,
)
    requires
        forall|extension: Seq<char>|
            extension_total(config, first, extension) == extension_total(
                config,
                second,
                extension,
            ),
    ensures
        total_over(config, first, extensions) == total_over(config, second, extensions),
    decreases extensions.len(),
{
    if extensions.len() > 0 {
        lemma_total_over_from_totals(config, first, second, extensions.drop_last());
    }
}

/// Two sets of files with the same total for every extension have the same
/// composition.
pub proof fn lemma_composition_from_totals(
    config: Config,
    first: Seq<SourceFile>,
    second: Seq<SourceFile>,
    n: int,
)
    requires
        n <= config.languages@.len(),
        forall|extension: Seq<char>|
            extension_total(config, first, extension) == extension_total(
                config,
                second,
                extension,
            ),
    ensures
        composition_among(config, first, n) == composition_among(config, second, n),
    decreases n,
{
    if n > 0 {
        lemma_composition_from_totals(config, first, second, n - 1);
        lemma_total_over_from_totals(
            config,
            first,
            second,
            config.languages@[n - 1].extensions@,
        );
    }
}

/// Counting one more file whose extension no tracked language lists leaves
/// every total and the composition as they were.
pub proof fn lemma_untracked_file_changes_nothing(
    config: Config,
    files: Seq<SourceFile>,
    file: SourceFile,
)
    requires
        extension_of(file.name@) matches Some(own) ==> forall|l: int|
            0 <= l < config.languages@.len() ==> !lists_extension(
                #[trigger] config.languages@[l],
                lowercase_of(own),
            ),
    ensures
        forall|extension: Seq<char>|
            extension_total(config, files.push(file), extension) == extension_total(
                config,
                files,
                extension,
            ),
        composition_of(config, files.push(file)) == composition_of(config, files),
{
    assert(files.push(file).drop_last() =~= files);
    assert forall|extension: Seq<char>|
        extension_total(config, files.push(file), extension) == extension_total(
            config,
            files,
            extension,
        ) by {
        lemma_untracked_file_adds_nothing(config, file, extension);
    }
    lemma_composition_from_totals(
        config,
        files.push(file),
        files,
        config.languages@.len() as int,
    );
}

/// The total of an extension over two sets of files taken together is the sum
/// of the totals over each: the files may be counted in parts.
pub proof fn lemma_extension_total_splits(
    config: Config,
    first: Seq<SourceFile>,
    second: Seq<SourceFile>,
    extension: Seq<char>,
)
    ensures
        extension_total(config, first + second, extension) == extension_total(
            config,
            first,
            extension,
        ) + extension_total(config, second, extension),
    decreases second.len(),
{
    if second.len() == 0 {
        assert(first + second =~= first);
    } else {
        assert((first + second).drop_last() =~= first + second.drop_last());
        lemma_extension_total_splits(config, first, second.drop_last(), extension);
    }
}

/// Taking one file out of a set takes its lines off the total.
proof fn lemma_extension_total_without(
    config: Config,
    files: Seq<SourceFile>,
    at: int,
    extension: Seq<char>,
)
    requires
        0 <= at < files.len(),
    ensures
        extension_total(config, files, extension) == extension_total(
            config,
            files.remove(at),
            extension,
        ) + lines_for(config, files[at], extension),
{
    let front = files.take(at);
    let back = files.skip(at + 1);
    assert(files =~= front.push(files[at]) + back);
    assert(files.remove(at) =~= front + back);
    assert(front.push(files[at]).drop_last() =~= front);
    lemma_extension_total_splits(config, front.push(files[at]), back, extension);
    lemma_extension_total_splits(config, front, back, extension);
}

/// The total of an extension does not depend on the order of the files.
pub proof fn lemma_extension_total_any_order(
    config: Config,
    first: Seq<SourceFile>,
    second: Seq<SourceFile>,
    extension: Seq<char>,
)
    requires
        first.to_multiset() == second.to_multiset(),
    ensures
        extension_total(config, first, extension) == extension_total(config, second, extension),
    decreases first.len(),
{
    first.to_multiset_ensures();
    second.to_multiset_ensures();
    if first.len() == 0 {
        assert(second.len() == 0);
    } else {
        let file = first.last();
        assert(first.contains(file));
        assert(second.to_multiset().count(file) > 0);
        let at = choose|at: int| 0 <= at < second.len() && second[at] == file;
        let rest = first.drop_last();
        assert(rest =~= first.remove(first.len() - 1));
        assert(rest.to_multiset() =~= second.remove(at).to_multiset());
        lemma_extension_total_any_order(config, rest, second.remove(at), extension);
        lemma_extension_total_without(config, second, at, extension);
    }
}

/// The composition does not depend on the order in which the files are
/// counted.
pub proof fn lemma_composition_any_order(
    config: Config,
    first: Seq<SourceFile>,
    second: Seq<SourceFile>,
)
    requires
        first.to_multiset() == second.to_multiset(),
    ensures
        composition_of(config, first) == composition_of(config, second),
        totals_fit(config, first) == totals_fit(config, second),
{
    assert forall|extension: Seq<char>|
        extension_total(config, first, extension) == extension_total(
            config,
            second,
            extension,
        ) by {
        lemma_extension_total_any_order(config, first, second, extension);
    }
    lemma_composition_from_totals(config, first, second, config.languages@.len() as int);
    assert forall|l: int| 0 <= l < config.languages@.len() implies language_total(
        config,
        first,
        l,
    ) == language_total(config, second, l) by {
        lemma_total_over_from_totals(config, first, second, config.languages@[l].extensions@);
    }
}

/// What the composition holds: its entries stand in registry order, each for
/// a language of the registry with its total, and no total is zero.
pub proof fn lemma_composition_entries(config: Config, files: Seq<SourceFile>, n: int)
    requires
        n <= config.languages@.len(),
    ensures
        forall|k: int|
            0 <= k < composition_among(config, files, n).len() ==> {
                let entry = #[trigger] composition_among(config, files, n)[k];
                &&& 0 <= entry.0 < n
                &&& entry.1 == language_total(config, files, entry.0)
                &&& entry.1 > 0
            },
        forall|j: int, k: int|
            0 <= j < k < composition_among(config, files, n).len() ==> composition_among(
                config,
                files,
                n,
            )[j].0 < composition_among(config, files, n)[k].0,
    decreases n,
{
    if n > 0 {
        lemma_composition_entries(config, files, n - 1);
        let before = composition_among(config, files, n - 1);
        let whole = composition_among(config, files, n);
        assert forall|k: int| 0 <= k < whole.len() implies {
            let entry = #[trigger] whole[k];
            &&& 0 <= entry.0 < n
            &&& entry.1 == language_total(config, files, entry.0)
            &&& entry.1 > 0
        } by {
            if k < before.len() {
                assert(whole[k] == before[k]);
            }
        }
        assert forall|j: int, k: int| 0 <= j < k < whole.len() implies whole[j].0 < whole[k].0 by {
            assert(whole[j] == before[j]);
            if k < before.len() {
                assert(whole[k] == before[k]);
            }
        }
    }
}

/// A language has an entry in the composition exactly when its total is not
/// zero: a language all of whose files were left out has none.
pub proof fn lemma_language_has_entry(config: Config, files: Seq<SourceFile>, l: int, n: int)
    requires
        0 <= l < n <= config.languages@.len(),
    ensures
        (exists|k: int|
            0 <= k < composition_among(config, files, n).len() && (#[trigger] composition_among(
                config,
                files,
                n,
            )[k]).0 == l) <==> language_total(config, files, l) > 0,
    decreases n,
{
    let whole = composition_among(config, files, n);
    let before = composition_among(config, files, n - 1);
    lemma_composition_entries(config, files, n - 1);
    lemma_composition_entries(config, files, n);
    if l < n - 1 {
        lemma_language_has_entry(config, files, l, n - 1);
        if language_total(config, files, l) > 0 {
            let k = choose|k: int| 0 <= k < before.len() && (#[trigger] before[k]).0 == l;
            assert(whole[k].0 == l);
        }
        if exists|k: int| 0 <= k < whole.len() && (#[trigger] whole[k]).0 == l {
            let k = choose|k: int| 0 <= k < whole.len() && (#[trigger] whole[k]).0 == l;
            assert(k < before.len());
            assert(before[k].0 == l);
        }
    } else {
        if language_total(config, files, l) > 0 {
            assert(whole[whole.len() - 1].0 == l);
        }
    }
}

/// The sum over a list of extensions holds the whole total of each extension
/// in the list, taken in lower case.
pub proof fn lemma_total_over_holds_each(
    config: Config,
    files: Seq<SourceFile>,
    extensions: Seq<String>,
    e: int,
)
    requires
        0 <= e < extensions.len(),
    ensures
        total_over(config, files, extensions) >= extension_total(
            config,
            files,
            lowercase_of(extensions[e]@),
        ),
    decreases extensions.len(),
{
    let last = extensions.len() - 1;
    let front = extensions.drop_last();
    assert(front =~= extensions.take(last));
    if e < last {
        lemma_total_over_holds_each(config, files, front, e);
    } else if repeats_earlier(extensions, last) {
        let earlier = choose|j: int|
            0 <= j < lowered(front).len() && lowered(front)[j] == lowercase_of(extensions[last]@);
        assert(lowered(front)[earlier] == lowercase_of(front[earlier]@));
        lemma_total_over_holds_each(config, files, front, earlier);
    }
}

/// Every language that lists an extension is given the whole total of that
/// extension: where two languages share an extension, its lines count under
/// both.
pub proof fn lemma_shared_extension_counts_for_each(
    config: Config,
    files: Seq<SourceFile>,
    l: int,
    e: int,
)
    requires
        0 <= l < config.languages@.len(),
        0 <= e < config.languages@[l].extensions@.len(),
    ensures
        language_total(config, files, l) >= extension_total(
            config,
            files,
            lowercase_of(config.languages@[l].extensions@[e]@),
        ),
{
    lemma_total_over_holds_each(config, files, config.languages@[l].extensions@, e);
}

/// An extension counts once in the total of a language, however often the
/// language lists it: listing it again, in whatever case, changes nothing.
pub proof fn lemma_repeated_extension_counts_once(
    config: Config,
    files: Seq<SourceFile>,
    extensions: Seq<String>,
    again: String,
)
    requires
        lowered(extensions).contains(lowercase_of(again@)),
    ensures
        total_over(config, files, extensions.push(again)) == total_over(config, files, extensions),
{
    let longer = extensions.push(again);
    assert(longer.drop_last() =~= extensions);
    assert(longer.take(longer.len() - 1) =~= extensions);
}

/// The total of an extension that no counted file has is zero.
pub proof fn lemma_extension_without_files(
    config: Config,
    files: Seq<SourceFile>,
    extension: Seq<char>,
)
    requires
        forall|k: int| 0 <= k < files.len() ==> lines_for(config, #[trigger] files[k], extension) == 0,
    ensures
        extension_total(config, files, extension) == 0,
    decreases files.len(),
{
    if files.len() > 0 {
        let rest = files.drop_last();
        assert forall|k: int| 0 <= k < rest.len() implies lines_for(
            config,
            #[trigger] rest[k],
            extension,
        ) == 0 by {
            assert(rest[k] == files[k]);
        }
        lemma_extension_without_files(config, rest, extension);
    }
}

/// The sum over a list of extensions none of which any counted file has is
/// zero.
pub proof fn lemma_total_over_without_files(
    config: Config,
    files: Seq<SourceFile>,
    extensions: Seq<String>,
)
    requires
        forall|e: int, k: int|
            0 <= e < extensions.len() && 0 <= k < files.len() ==> lines_for(
                config,
                #[trigger] files[k],
                lowercase_of((#[trigger] extensions[e])@),
            ) == 0,
    ensures
        total_over(config, files, extensions) == 0,
    decreases extensions.len(),
{
    if extensions.len() > 0 {
        let rest = extensions.drop_last();
        assert forall|e: int, k: int| 0 <= e < rest.len() && 0 <= k < files.len() implies lines_for(
            config,
            #[trigger] files[k],
            lowercase_of((#[trigger] rest[e])@),
        ) == 0 by {
            assert(rest[e] == extensions[e]);
        }
        lemma_total_over_without_files(config, files, rest);
        assert forall|k: int| 0 <= k < files.len() implies lines_for(
            config,
            #[trigger] files[k],
            lowercase_of(extensions.last()@),
        ) == 0 by {
            assert(extensions[extensions.len() - 1] == extensions.last());
        }
        lemma_extension_without_files(config, files, lowercase_of(extensions.last()@));
    }
}

/// A language all of whose files were left out has no entry in the
/// composition: where no counted file adds to any of its extensions, no entry
/// names it, not even one with a count of zero.
pub proof fn lemma_language_without_files(config: Config, files: Seq<SourceFile>, l: int)
    requires
        0 <= l < config.languages@.len(),
        forall|e: int, k: int|
            0 <= e < config.languages@[l].extensions@.len() && 0 <= k < files.len() ==> lines_for(
                config,
                #[trigger] files[k],
                lowercase_of((#[trigger] config.languages@[l].extensions@[e])@),
            ) == 0,
    ensures
        language_total(config, files, l) == 0,
        forall|k: int|
            0 <= k < composition_of(config, files).len() ==> (#[trigger] composition_of(
                config,
                files,
            )[k]).0 != l,
{
    lemma_total_over_without_files(config, files, config.languages@[l].extensions@);
    lemma_language_has_entry(config, files, l, config.languages@.len() as int);
}

/// Without files there are no totals: the composition is empty.
pub proof fn lemma_no_files_no_entries(config: Config, n: int)
    requires
        n <= config.languages@.len(),
    ensures
        composition_among(config, Seq::<SourceFile>::empty(), n).len() == 0,
    decreases n,
{
    if n > 0 {
        lemma_no_files_no_entries(config, n - 1);
        lemma_total_over_nothing(config, config.languages@[n - 1].extensions@);
    }
}

/// Without files the sum over any list of extensions is zero.
proof fn lemma_total_over_nothing(config: Config, extensions: Seq<String>)
    ensures
        total_over(config, Seq::<SourceFile>::empty(), extensions) == 0,
    decreases extensions.len(),
{
    if extensions.len() > 0 {
        lemma_total_over_nothing(config, extensions.drop_last());
    }
}

/// A run on the same configuration and the same files gives the same result
/// again: two results that spell out the composition agree entry by entry.
pub proof fn lemma_same_files_same_composition(
    config: Config,
    files: Seq<SourceFile>,
    first: Seq<CompositionEntry>,
    second: Seq<CompositionEntry>,
)
    requires
        spells(first, config, composition_of(config, files)),
        spells(second, config, composition_of(config, files)),
    ensures
        first.len() == second.len(),
        forall|k: int|
            0 <= k < first.len() ==> *(#[trigger] first[k]).language == *second[k].language
                && first[k].line_count == second[k].line_count,
{
}

/// A run on the same configuration and the same walk finds the same eligible
/// files again.
pub proof fn lemma_same_walk_same_entries(
    config: Config,
    entries: Seq<WalkEntry>,
    first: Seq<usize>,
    second: Seq<usize>,
)
    requires
        positions(first) == eligible_entries(config, entries),
        positions(second) == eligible_entries(config, entries),
    ensures
        first == second,
{
    assert(first.len() == positions(first).len());
    assert(second.len() == positions(second).len());
    assert forall|k: int| 0 <= k < first.len() implies first[k] == second[k] by {
        assert(positions(first)[k] == first[k] as int);
        assert(positions(second)[k] == second[k] as int);
    }
    assert(first =~= second);
}

/// What the collector keeps: the positions stand in the order of the walk,
/// and a position is kept exactly when its entry is a file that passes the
/// filters.
pub proof fn lemma_passing_among(
    config: Config,
    extensions: Seq<Seq<char>>,
    entries: Seq<WalkEntry>,
    cache: Seq<Option<MatcherView>>,
    n: int,
)
    ensures
        forall|k: int|
            0 <= k < passing_among(config, extensions, entries, cache, n).len() ==> {
                let i = #[trigger] passing_among(config, extensions, entries, cache, n)[k];
                &&& 0 <= i < n
                &&& entries[i].kind == EntryKind::File
                &&& file_passes(config, extensions, entries, cache, i)
            },
        forall|j: int, k: int|
            0 <= j < k < passing_among(config, extensions, entries, cache, n).len()
                ==> passing_among(config, extensions, entries, cache, n)[j] < passing_among(
                config,
                extensions,
                entries,
                cache,
                n,
            )[k],
        forall|i: int|
            0 <= i < n && entries[i].kind == EntryKind::File && file_passes(
                config,
                extensions,
                entries,
                cache,
                i,
            ) ==> passing_among(config, extensions, entries, cache, n).contains(i),
    decreases n,
{
    if n > 0 {
        lemma_passing_among(config, extensions, entries, cache, n - 1);
        let before = passing_among(config, extensions, entries, cache, n - 1);
        let whole = passing_among(config, extensions, entries, cache, n);
        assert forall|i: int|
            0 <= i < n && entries[i].kind == EntryKind::File && file_passes(
                config,
                extensions,
                entries,
                cache,
                i,
            ) implies whole.contains(i) by {
            if i < n - 1 {
                let k = choose|k: int| 0 <= k < before.len() && before[k] == i;
                assert(whole[k] == i);
            } else {
                assert(whole[whole.len() - 1] == i);
            }
        }
    }
}

/// Every eligible position lies within the walk.
pub proof fn lemma_eligible_positions(config: Config, entries: Seq<WalkEntry>)
    ensures
        forall|k: int|
            0 <= k < eligible_entries(config, entries).len() ==> 0 <= #[trigger] eligible_entries(
                config,
                entries,
            )[k] < entries.len(),
{
    lemma_passing_among(
        config,
        lowered_extensions(config.languages@),
        entries,
        matchers_for(config, entries),
        entries.len() as int,
    );
}

/// A position is among the eligible entries exactly when its entry is
/// eligible.
pub proof fn lemma_eligible_entries(config: Config, entries: Seq<WalkEntry>, i: int)
    ensures
        eligible_entries(config, entries).contains(i) <==> 0 <= i < entries.len() && is_eligible(
            config,
            entries,
            i,
        ),
{
    lemma_passing_among(
        config,
        lowered_extensions(config.languages@),
        entries,
        matchers_for(config, entries),
        entries.len() as int,
    );
    let found = eligible_entries(config, entries);
    if found.contains(i) {
        let k = choose|k: int| 0 <= k < found.len() && found[k] == i;
        assert(found[k] == i);
    }
}

/// A file whose extension is not, in lower case, among the lower-case
/// extensions of the registry is never eligible.
pub proof fn lemma_untracked_file_not_eligible(config: Config, entries: Seq<WalkEntry>, i: int)
    requires
        0 <= i < entries.len(),
        !has_extension_among(entries[i].name@, lowered_extensions(config.languages@)),
    ensures
        !is_eligible(config, entries, i),
        !eligible_entries(config, entries).contains(i),
{
    lemma_eligible_entries(config, entries, i);
}

/// Whether one of the eligible files of a walk has an extension that the
/// language at position `l` lists.
pub open spec fn has_eligible_file(config: Config, entries: Seq<WalkEntry>, l: int) -> bool {
    exists|i: int|
        0 <= i < entries.len() && is_eligible(config, entries, i) && (match extension_of(
            (#[trigger] entries[i]).name@,
        ) {
            Some(extension) => lists_extension(config.languages@[l], lowercase_of(extension)),
            None => false,
        })
}

/// A tracked language all of whose files were excluded has no entry in the
/// result of a run, not even one with a count of zero: where no eligible file
/// of the walk has one of its extensions, no entry names the language.
pub proof fn lemma_excluded_language_has_no_entry(
    config: Config,
    entries: Seq<WalkEntry>,
    contents: Seq<Option<String>>,
    l: int,
)
    requires
        0 <= l < config.languages@.len(),
        !has_eligible_file(config, entries, l),
    ensures
        forall|k: int|
            0 <= k < composition_of(config, counted_files(config, entries, contents)).len() ==> (
            #[trigger] composition_of(config, counted_files(config, entries, contents))[k]).0 != l,
{
    let found = eligible_entries(config, entries);
    let files = counted_files(config, entries, contents);
    let language = config.languages@[l];
    lemma_eligible_positions(config, entries);
    assert forall|e: int, k: int|
        0 <= e < language.extensions@.len() && 0 <= k < files.len() implies lines_for(
        config,
        #[trigger] files[k],
        lowercase_of((#[trigger] language.extensions@[e])@),
    ) == 0 by {
        let i = found[k];
        assert(found.contains(i));
        lemma_eligible_entries(config, entries, i);
        assert(files[k].name == entries[i].name);
        if let Some(extension) = extension_of(entries[i].name@) {
            if lowercase_of(extension) == lowercase_of(language.extensions@[e]@) {
                assert(lowered(language.extensions@)[e] == lowercase_of(extension));
                assert(lists_extension(language, lowercase_of(extension)));
                assert(has_eligible_file(config, entries, l));
            }
        }
    }
    lemma_language_without_files(config, files, l);
}

/// A language lists an extension exactly when the extension is in its
/// extension set.
pub proof fn lemma_extension_set(language: TrackedLanguage, extension: Seq<char>)
    ensures
        lists_extension(language, extension) <==> language.extension_set().contains(extension),
{
}

/// An extension that is among the lower-case extensions of the registry is
/// listed by one of its languages.
pub proof fn lemma_lowered_extension_is_listed(languages: Seq<TrackedLanguage>, extension: Seq<char>)
    requires
        lowered_extensions(languages).contains(extension),
    ensures
        exists|l: int| 0 <= l < languages.len() && lists_extension(#[trigger] languages[l], extension),
    decreases languages.len(),
{
    let all = lowered_extensions(languages);
    let at = choose|at: int| 0 <= at < all.len() && all[at] == extension;
    let front = languages.drop_last();
    let before = lowered_extensions(front);
    if at < before.len() {
        assert(before[at] == extension);
        lemma_lowered_extension_is_listed(front, extension);
        let l = choose|l: int| 0 <= l < front.len() && lists_extension(#[trigger] front[l], extension);
        assert(languages[l] == front[l]);
    } else {
        let own = lowered(languages.last().extensions@);
        assert(own[at - before.len()] == extension);
        assert(lists_extension(languages[languages.len() - 1], extension));
    }
}

/// An extension that one of the languages lists is among the lower-case
/// extensions of the registry.
pub proof fn lemma_listed_extension_is_lowered(
    languages: Seq<TrackedLanguage>,
    l: int,
    extension: Seq<char>,
)
    requires
        0 <= l < languages.len(),
        lists_extension(languages[l], extension),
    ensures
        lowered_extensions(languages).contains(extension),
    decreases languages.len(),
{
    let all = lowered_extensions(languages);
    let front = languages.drop_last();
    let before = lowered_extensions(front);
    if l < languages.len() - 1 {
        assert(front[l] == languages[l]);
        lemma_listed_extension_is_lowered(front, l, extension);
        let at = choose|at: int| 0 <= at < before.len() && before[at] == extension;
        assert(all[at] == extension);
    } else {
        let own = lowered(languages.last().extensions@);
        let at = choose|at: int| 0 <= at < own.len() && own[at] == extension;
        assert(all[before.len() + at] == extension);
    }
}

/// A file whose extension is not, in lower case, among the lower-case
/// extensions of the registry adds nothing to any total: what the collector
/// turns away, the composition engine would not count either.
pub proof fn lemma_untracked_extension_adds_nothing(
    config: Config,
    file: SourceFile,
    extension: Seq<char>,
)
    requires
        !has_extension_among(file.name@, lowered_extensions(config.languages@)),
    ensures
        contribution_of(config, file) is None,
        lines_for(config, file, extension) == 0,
{
    if let Some(own) = extension_of(file.name@) {
        assert forall|l: int| 0 <= l < config.languages@.len() implies !lists_extension(
            #[trigger] config.languages@[l],
            lowercase_of(own),
        ) by {
            if lists_extension(config.languages@[l], lowercase_of(own)) {
                lemma_listed_extension_is_lowered(config.languages@, l, lowercase_of(own));
            }
        }
    }
    lemma_untracked_file_adds_nothing(config, file, extension);
}

/// The collector and the composition engine agree on what a tracked
/// extension is: a file that is eligible for counting has an owner among the
/// languages, so its countable lines are counted.
pub proof fn lemma_eligible_file_has_owner(config: Config, entries: Seq<WalkEntry>, i: int)
    requires
        0 <= i < entries.len(),
        is_eligible(config, entries, i),
    ensures
        extension_of(entries[i].name@) matches Some(extension) && owner_of(
            config.languages@,
            lowercase_of(extension),
        ) is Some,
{
    let extension = extension_of(entries[i].name@)->0;
    lemma_lowered_extension_is_listed(config.languages@, lowercase_of(extension));
    lemma_owner_from(config.languages@, lowercase_of(extension), 0);
}

} // verus!
