//! The entry collector: which directories a traversal descends into, and
//! which of the files it met are eligible for counting.

use crate::config::{Config, TrackedLanguage};
use crate::resolver::{
    build_gitignore_cache, git_ignored, is_ignored_by_git, matchers_of, no_matchers,
    without_rules, GitignoreCache, MatcherView,
};
use crate::text::{
    extension_of, file_extension, has_leading_dot, list_contains, lowercase_of, lowered,
    starts_with_dot, text_list_contains, texts_of,
};
use crate::walk::{lemma_parent_of, parent_of, EntryKind, Walk, WalkEntry};
use vstd::prelude::*;

verus! {

/// Whether a traversal descends into an entry. Everything that is not a
/// directory passes, and so does the root; any other directory is pruned
/// where its name begins with a dot and dot folders are ignored, or where
/// its name is one of the ignored directory names.
pub open spec fn is_traversed(
    name: Seq<char>,
    kind: EntryKind,
    is_root: bool,
    ignore_dotfolders: bool,
    ignored_directories: Seq<String>,
) -> bool {
    kind != EntryKind::Directory || is_root || !((ignore_dotfolders && starts_with_dot(name))
        || text_list_contains(ignored_directories, name))
}

/// Decides whether a traversal descends into an entry.
pub fn should_traverse_directory(
    name: &str,
    kind: EntryKind,
    is_root: bool,
    ignore_dotfolders: bool,
    ignored_directories: &Vec<String>,
) -> (descend: bool)
    ensures
        descend == is_traversed(name@, kind, is_root, ignore_dotfolders, ignored_directories@),
{
    if kind != EntryKind::Directory {
        return true;
    }
    if is_root {
        return true;
    }
    if ignore_dotfolders && has_leading_dot(name) {
        return false;
    }
    if list_contains(ignored_directories, name) {
        return false;
    }
    true
}

/// Whether the traversal keeps the entry at position `i` of a listing: the
/// first entry is the root, and any other is kept unless it is a directory
/// that the policy prunes.
pub open spec fn survives(config: Config, entries: Seq<WalkEntry>, i: int) -> bool {
    is_traversed(
        entries[i].name@,
        entries[i].kind,
        i == 0,
        config.ignore_dotfolders,
        config.ignored_directories@,
    )
}

/// Whether a listing is what a traversal leaves: it holds no directory that
/// the policy prunes, and so nothing that lies in one.
pub open spec fn is_pruned(config: Config, entries: Seq<WalkEntry>) -> bool {
    forall|i: int| 0 <= i < entries.len() ==> #[trigger] survives(config, entries, i)
}

/// Tells whether a walk holds no directory that the policy prunes. A walk
/// whose traversal asked `should_traverse_directory` of every entry does.
pub fn check_pruned(config: &Config, walk: &Walk) -> (pruned: bool)
    ensures
        pruned == is_pruned(*config, walk@),
{
    let mut i: usize = 0;
    while i < walk.len()
        invariant
            i <= walk@.len(),
            forall|k: int| 0 <= k < i ==> #[trigger] survives(*config, walk@, k),
        decreases walk@.len() - i,
    {
        let entry = walk.entry(i);
        if !should_traverse_directory(
            entry.name.as_str(),
            entry.kind,
            i == 0,
            config.ignore_dotfolders,
            &config.ignored_directories,
        ) {
            assert(!survives(*config, walk@, i as int));
            return false;
        }
        i += 1;
    }
    true
}

/// Whether every directory above entry `i`, up to the root, is one that the
/// traversal keeps.
pub open spec fn lies_in_kept_directories(config: Config, entries: Seq<WalkEntry>, i: int) -> bool
    decreases i,
{
    match parent_of(entries, i) {
        Some(p) => 0 <= p < i && survives(config, entries, p) && lies_in_kept_directories(
            config,
            entries,
            p,
        ),
        None => true,
    }
}

/// In a listing that a traversal left, nothing lies in a pruned directory:
/// every directory above an entry is one that the traversal keeps. So no file
/// below a pruned directory is ever eligible.
pub proof fn lemma_pruned_listing(config: Config, entries: Seq<WalkEntry>, i: int)
    requires
        is_pruned(config, entries),
        0 <= i < entries.len(),
    ensures
        survives(config, entries, i),
        lies_in_kept_directories(config, entries, i),
    decreases i,
{
    lemma_parent_of(entries, i);
    if let Some(p) = parent_of(entries, i) {
        lemma_pruned_listing(config, entries, p);
    }
}

/// The lower-case forms of the extensions of all languages, language by
/// language.
pub open spec fn lowered_extensions(languages: Seq<TrackedLanguage>) -> Seq<Seq<char>>
    decreases languages.len(),
{
    if languages.len() == 0 {
        Seq::empty()
    } else {
        lowered_extensions(languages.drop_last()) + lowered(languages.last().extensions@)
    }
}

/// Gathers the lower-case forms of the extensions of all languages.
pub fn tracked_extension_set(languages: &Vec<TrackedLanguage>) -> (extensions: Vec<String>)
    ensures
        texts_of(extensions@) == lowered_extensions(languages@),
{
    let mut extensions: Vec<String> = Vec::new();
    let mut l: usize = 0;
    assert(languages@.take(0) =~= Seq::empty());
    while l < languages.len()
        invariant
            l <= languages.len(),
            texts_of(extensions@) == lowered_extensions(languages@.take(l as int)),
        decreases languages.len() - l,
    {
        let own = &languages[l].extensions;
        let ghost before = texts_of(extensions@);
        let mut e: usize = 0;
        while e < own.len()
            invariant
                e <= own.len(),
                texts_of(extensions@) == before + lowered(own@).take(e as int),
            decreases own.len() - e,
        {
            let lower = own[e].as_str().to_lowercase();
            let ghost gathered = texts_of(extensions@);
            extensions.push(lower);
            proof {
                assert(texts_of(extensions@) =~= gathered.push(lower@));
                assert(lowered(own@).take(e + 1) =~= lowered(own@).take(e as int).push(lower@));
                assert(texts_of(extensions@) =~= before + lowered(own@).take(e + 1));
            }
            e += 1;
        }
        proof {
            assert(lowered(own@).take(e as int) =~= lowered(own@));
            assert(languages@.take(l + 1).drop_last() =~= languages@.take(l as int));
        }
        l += 1;
    }
    assert(languages@.take(l as int) =~= languages@);
    extensions
}

/// Whether a file name has an extension whose lower-case form is among
/// `extensions`.
pub open spec fn has_extension_among(name: Seq<char>, extensions: Seq<Seq<char>>) -> bool {
    match extension_of(name) {
        Some(extension) => extensions.contains(lowercase_of(extension)),
        None => false,
    }
}

/// Tells whether a file name has one of the given extensions, compared in
/// lower case.
pub fn has_tracked_extension(name: &str, tracked_extensions: &Vec<String>) -> (known: bool)
    ensures
        known == has_extension_among(name@, texts_of(tracked_extensions@)),
{
    match file_extension(name) {
        Some(extension) => {
            let lower = extension.to_lowercase();
            list_contains(tracked_extensions, lower.as_str())
        },
        None => false,
    }
}

/// Whether the name of a file passes the filters: it does not begin with a
/// dot where dot files are ignored, is not one of the ignored file names, and
/// has one of the given extensions.
pub open spec fn name_passes(config: Config, extensions: Seq<Seq<char>>, name: Seq<char>) -> bool {
    &&& !(config.ignore_dotfiles && starts_with_dot(name))
    &&& !text_list_contains(config.ignored_files@, name)
    &&& has_extension_among(name, extensions)
}

/// Whether the filters let the file at position `i` through: its name passes,
/// and the file is not ignored by the ignore files above it where those are
/// respected.
pub open spec fn file_passes(
    config: Config,
    extensions: Seq<Seq<char>>,
    entries: Seq<WalkEntry>,
    cache: Seq<Option<MatcherView>>,
    i: int,
) -> bool {
    &&& name_passes(config, extensions, entries[i].name@)
    &&& !(config.respect_gitignore && git_ignored(entries, cache, i))
}

/// Applies the filters to the file at position `i`. Where no directory of the
/// walk contributes a rule, the name alone decides.
pub fn filter_file(
    walk: &Walk,
    i: usize,
    config: &Config,
    tracked_extensions: &Vec<String>,
    gitignore_cache: &GitignoreCache,
) -> (kept: bool)
    requires
        i < walk@.len(),
        gitignore_cache@.len() == walk@.len(),
    ensures
        kept == file_passes(
            *config,
            texts_of(tracked_extensions@),
            walk@,
            gitignore_cache@,
            i as int,
        ),
        without_rules(gitignore_cache@) ==> kept == name_passes(
            *config,
            texts_of(tracked_extensions@),
            walk@[i as int].name@,
        ),
{
    let entry = walk.entry(i);
    if config.ignore_dotfiles && has_leading_dot(entry.name.as_str()) {
        return false;
    }
    if list_contains(&config.ignored_files, entry.name.as_str()) {
        return false;
    }
    if !has_tracked_extension(entry.name.as_str(), tracked_extensions) {
        return false;
    }
    if config.respect_gitignore {
        if is_ignored_by_git(walk, gitignore_cache, i) {
            return false;
        }
    }
    true
}

/// The positions, among the first `n` entries, of the files that pass the
/// filters, in order.
pub open spec fn passing_among(
    config: Config,
    extensions: Seq<Seq<char>>,
    entries: Seq<WalkEntry>,
    cache: Seq<Option<MatcherView>>,
    n: int,
) -> Seq<int>
    decreases n,
{
    if n <= 0 {
        Seq::empty()
    } else if entries[n - 1].kind == EntryKind::File && file_passes(
        config,
        extensions,
        entries,
        cache,
        n - 1,
    ) {
        passing_among(config, extensions, entries, cache, n - 1).push(n - 1)
    } else {
        passing_among(config, extensions, entries, cache, n - 1)
    }
}

/// Positions in a walk, as integers.
pub open spec fn positions(found: Seq<usize>) -> Seq<int> {
    Seq::new(found.len(), |k: int| found[k] as int)
}

/// Keeps the files of a walk that pass the filters.
pub fn filter_entries(
    walk: &Walk,
    config: &Config,
    tracked_extensions: &Vec<String>,
    gitignore_cache: &GitignoreCache,
) -> (kept: Vec<usize>)
    requires
        gitignore_cache@.len() == walk@.len(),
    ensures
        positions(kept@) == passing_among(
            *config,
            texts_of(tracked_extensions@),
            walk@,
            gitignore_cache@,
            walk@.len() as int,
        ),
        forall|k: int| 0 <= k < kept@.len() ==> #[trigger] kept@[k] < walk@.len(),
{
    let mut kept: Vec<usize> = Vec::new();
    let mut i: usize = 0;
    while i < walk.len()
        invariant
            i <= walk@.len(),
            gitignore_cache@.len() == walk@.len(),
            positions(kept@) == passing_among(
                *config,
                texts_of(tracked_extensions@),
                walk@,
                gitignore_cache@,
                i as int,
            ),
            forall|k: int| 0 <= k < kept@.len() ==> #[trigger] kept@[k] < i,
        decreases walk@.len() - i,
    {
        let ghost before = positions(kept@);
        if walk.entry(i).kind == EntryKind::File && filter_file(
            walk,
            i,
            config,
            tracked_extensions,
            gitignore_cache,
        ) {
            kept.push(i);
            proof {
                assert(positions(kept@) =~= before.push(i as int));
            }
        }
        i += 1;
    }
    kept
}

/// The matchers that a run consults: those of the walk's directories where
/// ignore files are respected, none otherwise.
pub open spec fn matchers_for(config: Config, entries: Seq<WalkEntry>) -> Seq<Option<MatcherView>> {
    if config.respect_gitignore {
        matchers_of(entries)
    } else {
        no_matchers(entries.len())
    }
}

/// Whether the entry at position `i` is eligible for counting: it is a file
/// and passes the filters, with the extensions of the registry and the
/// matchers of the walk.
pub open spec fn is_eligible(config: Config, entries: Seq<WalkEntry>, i: int) -> bool {
    &&& entries[i].kind == EntryKind::File
    &&& file_passes(
        config,
        lowered_extensions(config.languages@),
        entries,
        matchers_for(config, entries),
        i,
    )
}

/// The positions of all eligible entries of a walk, in order.
pub open spec fn eligible_entries(config: Config, entries: Seq<WalkEntry>) -> Seq<int> {
    passing_among(
        config,
        lowered_extensions(config.languages@),
        entries,
        matchers_for(config, entries),
        entries.len() as int,
    )
}

/// Finds the files of a walk that are eligible for counting, in the order of
/// the walk. The walk is taken as the traversal left it: where it holds no
/// pruned directory, every eligible file lies in directories that the
/// traversal keeps.
pub fn get_all_entries(config: &Config, walk: &Walk) -> (eligible: Vec<usize>)
    ensures
        positions(eligible@) == eligible_entries(*config, walk@),
        forall|k: int| 0 <= k < eligible@.len() ==> #[trigger] eligible@[k] < walk@.len(),
        is_pruned(*config, walk@) ==> forall|k: int|
            0 <= k < eligible@.len() ==> lies_in_kept_directories(
                *config,
                walk@,
                (#[trigger] eligible@[k]) as int,
            ),
{
    let tracked_extensions = tracked_extension_set(&config.languages);
    let gitignore_cache = if config.respect_gitignore {
        build_gitignore_cache(walk)
    } else {
        GitignoreCache::empty(walk.len())
    };
    let eligible = filter_entries(walk, config, &tracked_extensions, &gitignore_cache);
    proof {
        if is_pruned(*config, walk@) {
            assert forall|k: int| 0 <= k < eligible@.len() implies lies_in_kept_directories(
                *config,
                walk@,
                (#[trigger] eligible@[k]) as int,
            ) by {
                lemma_pruned_listing(*config, walk@, eligible@[k] as int);
            }
        }
    }
    eligible
}

} // verus!
