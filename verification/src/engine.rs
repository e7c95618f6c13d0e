//! A whole run: from the entries of a walk and the text of its files to the
//! composition.

use crate::collector::{eligible_entries, get_all_entries, positions};
use crate::composition::{
    composition_of, get_composition, spells, totals_fit, CompositionEntry, SourceFile,
};
use crate::config::Config;
use crate::walk::{Walk, WalkEntry};
use vstd::prelude::*;

verus! {

/// The files at the given positions of a walk, each with its name from the
/// walk and its text from `contents`.
pub open spec fn files_at(
    entries: Seq<WalkEntry>,
    contents: Seq<Option<String>>,
    found: Seq<int>,
) -> Seq<SourceFile> {
    Seq::new(
        found.len(),
        |k: int| SourceFile { name: entries[found[k]].name, content: contents[found[k]] },
    )
}

/// The files that a run counts: the eligible entries of the walk, in the
/// order of the walk.
pub open spec fn counted_files(
    config: Config,
    entries: Seq<WalkEntry>,
    contents: Seq<Option<String>>,
) -> Seq<SourceFile> {
    files_at(entries, contents, eligible_entries(config, entries))
}

/// Pairs the entries at the given positions with their text.
pub fn gather_files(walk: &Walk, contents: &Vec<Option<String>>, found: &Vec<usize>) -> (files: Vec<
    SourceFile,
>)
    requires
        contents@.len() == walk@.len(),
        forall|k: int| 0 <= k < found@.len() ==> #[trigger] found@[k] < walk@.len(),
    ensures
        files@ == files_at(walk@, contents@, positions(found@)),
{
    let mut files: Vec<SourceFile> = Vec::with_capacity(found.len());
    let mut k: usize = 0;
    while k < found.len()
        invariant
            k <= found@.len(),
            contents@.len() == walk@.len(),
            forall|j: int| 0 <= j < found@.len() ==> #[trigger] found@[j] < walk@.len(),
            files@ == files_at(walk@, contents@, positions(found@)).take(k as int),
        decreases found@.len() - k,
    {
        let i = found[k];
        let content: Option<String> = match &contents[i] {
            Some(text) => Some(text.clone()),
            None => None,
        };
        files.push(SourceFile { name: walk.entry(i).name.clone(), content });
        proof {
            let all = files_at(walk@, contents@, positions(found@));
            assert(files@ =~= all.take(k + 1));
        }
        k += 1;
    }
    proof {
        let all = files_at(walk@, contents@, positions(found@));
        assert(all.take(k as int) =~= all);
    }
    files
}

/// Runs both halves on a walk: finds the eligible files, then computes their
/// composition. `contents` holds, for each entry of the walk, the text of the
/// file where it could be read. `None` is returned where a total does not fit
/// in a `usize`.
pub fn run_composition<'a>(
    config: &'a Config,
    walk: &Walk,
    contents: &Vec<Option<String>>,
) -> (res: Option<Vec<CompositionEntry<'a>>>)
    requires
        contents@.len() == walk@.len(),
    ensures
        res is Some <==> totals_fit(*config, counted_files(*config, walk@, contents@)),
        res matches Some(entries) ==> spells(
            entries@,
            *config,
            composition_of(*config, counted_files(*config, walk@, contents@)),
        ),
{
    let eligible = get_all_entries(config, walk);
    let files = gather_files(walk, contents, &eligible);
    get_composition(config, &files)
}

} // verus!
