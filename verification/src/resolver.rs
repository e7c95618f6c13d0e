//! Ignore files and their precedence: one matcher per directory, compiled
//! from that directory's ignore file, and the rule by which the matchers of
//! the directories above an entry decide whether the entry is ignored.

use crate::text::{lines_of, split_lines, strip_leading, texts_of, without_leading};
use crate::walk::{follows, is_preorder, parent_of, EntryKind, Walk, WalkEntry};
use ignore::gitignore::{Gitignore, GitignoreBuilder};
use vstd::prelude::*;
use vstd::string::StringExecFns;

verus! {

/// The `ignore` crate's matcher for the rules of one directory, carried as an
/// opaque value.
#[verifier::external_type_specification]
#[verifier::external_body]
pub struct ExGitignore(ignore::gitignore::Gitignore);

/// The `ignore` crate's builder of such a matcher, carried as an opaque value.
#[verifier::external_type_specification]
#[verifier::external_body]
pub struct ExGitignoreBuilder(ignore::gitignore::GitignoreBuilder);

/// The `ignore` crate's error, carried as an opaque value.
#[verifier::external_type_specification]
#[verifier::external_body]
pub struct ExIgnoreError(ignore::Error);

/// What the rules of one directory say of a path.
#[derive(Clone, Copy, Debug, PartialEq, Eq, Structural)]
pub enum Verdict {
    /// No rule matches the path.
    NoMatch,
    /// The last rule that matches the path ignores it.
    Ignore,
    /// The last rule that matches the path is negated: it keeps the path.
    Whitelist,
}

/// The directory a builder was made for, as it was written when the builder
/// was made.
pub uninterp spec fn builder_root(builder: GitignoreBuilder) -> Seq<char>;

/// The lines handed to a builder so far, in order, whether or not the builder
/// made a rule of them.
pub uninterp spec fn builder_lines(builder: GitignoreBuilder) -> Seq<Seq<char>>;

/// The directory a matcher belongs to, as it was written when its builder was
/// made.
pub uninterp spec fn gitignore_root(matcher: Gitignore) -> Seq<char>;

/// The lines that had been handed to the builder of a matcher when it was
/// built, in order.
pub uninterp spec fn gitignore_lines(matcher: Gitignore) -> Seq<Seq<char>>;

/// Whether `GitignoreBuilder::build` yields a matcher once these lines have
/// been handed to the builder.
pub uninterp spec fn gitignore_builds(lines: Seq<Seq<char>>) -> bool;

/// What `Gitignore::matched_path_or_any_parents` answers for `path`, on a
/// matcher for the directory `root` that was built from `lines`.
pub uninterp spec fn gitignore_verdict(
    root: Seq<char>,
    lines: Seq<Seq<char>>,
    path: Seq<char>,
    is_dir: bool,
) -> Verdict;

/// Whether a path is relative and free of empty components: it does not
/// begin with a separator and holds no two separators in a row.
pub open spec fn is_clean_relative(path: Seq<char>) -> bool {
    &&& path.len() > 0 ==> path[0] != '/'
    &&& forall|k: int| 0 <= k < path.len() - 1 ==> !(#[trigger] path[k] == '/' && path[k + 1] == '/')
}

/// Tells whether a path is relative and free of empty components.
pub fn check_clean_relative(path: &str) -> (clean: bool)
    ensures
        clean == is_clean_relative(path@),
{
    let mut clean = true;
    let mut after_separator = true;
    let ghost mut seen: int = 0;
    for c in it: path.chars()
        invariant
            it.seq() == path@,
            seen == it.index(),
            after_separator == (seen == 0 || path@[seen - 1] == '/'),
            clean == ((seen > 0 ==> path@[0] != '/') && forall|k: int|
                0 <= k < seen - 1 ==> !(#[trigger] path@[k] == '/' && path@[k + 1] == '/')),
    {
        if c == '/' && after_separator {
            clean = false;
        }
        after_separator = c == '/';
        proof {
            seen = seen + 1;
        }
    }
    clean
}

/// `GitignoreBuilder::new` starts a builder for the given directory, with no
/// line handed to it yet.
#[verifier::external_body]
fn new_builder(root: &str) -> (builder: GitignoreBuilder)
    ensures
        builder_root(builder) == root@,
        builder_lines(builder) == Seq::<Seq<char>>::empty(),
{
    GitignoreBuilder::new(root)
}

/// `GitignoreBuilder::add_line` takes one more line of an ignore file and
/// leaves the builder's directory alone. A comment, an empty line or a line
/// that it cannot parse adds no rule; the builder has still been handed the
/// line, and the error it reports for such a line is dropped here.
#[verifier::external_body]
fn add_line(builder: &mut GitignoreBuilder, line: &str)
    ensures
        builder_root(*final(builder)) == builder_root(*old(builder)),
        builder_lines(*final(builder)) == builder_lines(*old(builder)).push(line@),
{
    let _ = builder.add_line(None, line);
}

/// `GitignoreBuilder::build` compiles the lines handed to the builder into a
/// matcher for the builder's directory. Whether it succeeds depends on those
/// lines alone, and it succeeds where no line was handed over: a set of no
/// globs is built without compiling anything.
pub assume_specification[ GitignoreBuilder::build ](builder: &GitignoreBuilder) -> (res: Result<
    Gitignore,
    ignore::Error,
>)
    ensures
        res is Ok <==> gitignore_builds(builder_lines(*builder)),
        builder_lines(*builder).len() == 0 ==> res is Ok,
        res matches Ok(matcher) ==> gitignore_root(matcher) == builder_root(*builder)
            && gitignore_lines(matcher) == builder_lines(*builder),
;

/// `Gitignore::matched_path_or_any_parents` matches a path, then each of its
/// parents, against the rules and answers with the first match found. The
/// answer depends on the matcher's directory, its lines, the path and the
/// flag alone. The call panics on a path that still begins with a separator
/// once a leading `./` and the matcher's directory have been stripped from
/// it. Where `/` alone is the separator, a path that does not begin with one
/// and holds no two in a row never does; the contract is for such systems.
/// Where `\` separates too, a name that holds one could reach the panic, but
/// a directory of such a system holds no such name. A matcher without globs,
/// as one built from no lines is, answers that nothing matches before it
/// looks at the path.
#[verifier::external_body]
fn matched_verdict(matcher: &Gitignore, path: &str, is_dir: bool) -> (verdict: Verdict)
    requires
        is_clean_relative(path@),
    ensures
        verdict == gitignore_verdict(
            gitignore_root(*matcher),
            gitignore_lines(*matcher),
            path@,
            is_dir,
        ),
        gitignore_lines(*matcher).len() == 0 ==> verdict == Verdict::NoMatch,
{
    match matcher.matched_path_or_any_parents(path, is_dir) {
        ignore::Match::None => Verdict::NoMatch,
        ignore::Match::Ignore(_) => Verdict::Ignore,
        ignore::Match::Whitelist(_) => Verdict::Whitelist,
    }
}

/// The byte-order mark that may open a file.
pub open spec fn byte_order_mark() -> char {
    '\u{feff}'
}

/// The rules of an ignore file: its lines, the first of them without the
/// byte-order marks in front of it. A missing file has no rules.
pub open spec fn rules_of(ignore_file: Option<Seq<char>>) -> Seq<Seq<char>> {
    match ignore_file {
        None => Seq::empty(),
        Some(content) => {
            let lines = lines_of(content);
            if lines.len() == 0 {
                lines
            } else {
                lines.update(0, without_leading(lines[0], byte_order_mark()))
            }
        },
    }
}

/// What the contracts say of a matcher: its directory and the lines it was
/// built from.
pub struct MatcherView {
    pub root: Seq<char>,
    pub lines: Seq<Seq<char>>,
}

/// The directory and lines of a matcher.
pub open spec fn matcher_view(matcher: Gitignore) -> MatcherView {
    MatcherView { root: gitignore_root(matcher), lines: gitignore_lines(matcher) }
}

/// The text of an ignore file, as a character sequence.
pub open spec fn text_of(ignore_file: Option<&str>) -> Option<Seq<char>> {
    match ignore_file {
        Some(content) => Some(content@),
        None => None,
    }
}

/// Builds the matcher of a directory from the text of its ignore file: each
/// line of the file is handed to the builder, the first without the
/// byte-order marks in front of it. A directory without an ignore file gets
/// a matcher without rules.
pub fn build_gitignore(dir: &str, ignore_file: Option<&str>) -> (res: Result<Gitignore, ignore::Error>)
    ensures
        res is Ok <==> gitignore_builds(rules_of(text_of(ignore_file))),
        rules_of(text_of(ignore_file)).len() == 0 ==> res is Ok,
        res matches Ok(matcher) ==> matcher_view(matcher) == (MatcherView {
            root: dir@,
            lines: rules_of(text_of(ignore_file)),
        }),
{
    let mut builder = new_builder(dir);
    if let Some(content) = ignore_file {
        let lines = split_lines(content);
        let ghost rules = rules_of(Some(content@));
        let mut i: usize = 0;
        while i < lines.len()
            invariant
                i <= lines.len(),
                texts_of(lines@) == lines_of(content@),
                rules == rules_of(Some(content@)),
                builder_root(builder) == dir@,
                builder_lines(builder) == rules.take(i as int),
            decreases lines.len() - i,
        {
            let line: &str = if i == 0 {
                strip_leading(lines[i].as_str(), '\u{feff}')
            } else {
                lines[i].as_str()
            };
            assert(lines_of(content@)[i as int] == lines@[i as int]@);
            add_line(&mut builder, line);
            proof {
                assert(rules.take(i + 1) =~= rules.take(i as int).push(line@));
            }
            i += 1;
        }
        proof {
            assert(rules.take(i as int) =~= rules);
        }
    }
    builder.build()
}

/// The matchers of a walk: one for each directory whose rules could be
/// built, found under the directory's position in the walk.
pub struct GitignoreCache {
    matchers: Vec<Option<Gitignore>>,
}

impl View for GitignoreCache {
    type V = Seq<Option<MatcherView>>;

    closed spec fn view(&self) -> Seq<Option<MatcherView>> {
        Seq::new(
            self.matchers@.len(),
            |i: int|
                match self.matchers@[i] {
                    Some(matcher) => Some(matcher_view(matcher)),
                    None => None,
                },
        )
    }
}

/// The text of an entry's ignore file, as a character sequence.
pub open spec fn ignore_text(entry: WalkEntry) -> Option<Seq<char>> {
    match entry.ignore_file {
        Some(content) => Some(content@),
        None => None,
    }
}

/// The matcher that belongs to an entry: that of its ignore file where the
/// entry is a directory and the rules can be built, none otherwise.
pub open spec fn matcher_of(entry: WalkEntry) -> Option<MatcherView> {
    if entry.kind == EntryKind::Directory && gitignore_builds(rules_of(ignore_text(entry))) {
        Some(MatcherView { root: entry.path@, lines: rules_of(ignore_text(entry)) })
    } else {
        None
    }
}

/// The matchers of all entries of a walk.
pub open spec fn matchers_of(entries: Seq<WalkEntry>) -> Seq<Option<MatcherView>> {
    Seq::new(entries.len(), |i: int| matcher_of(entries[i]))
}

/// A cache without any matcher, for a walk of `len` entries.
pub open spec fn no_matchers(len: nat) -> Seq<Option<MatcherView>> {
    Seq::new(len, |i: int| None)
}

impl GitignoreCache {
    /// A cache that holds no matcher for any of `len` entries.
    pub fn empty(len: usize) -> (cache: GitignoreCache)
        ensures
            cache@ == no_matchers(len as nat),
    {
        let mut matchers: Vec<Option<Gitignore>> = Vec::with_capacity(len);
        let mut i: usize = 0;
        while i < len
            invariant
                i <= len,
                matchers@.len() == i,
                forall|k: int| 0 <= k < i ==> #[trigger] matchers@[k] is None,
            decreases len - i,
        {
            matchers.push(None);
            i += 1;
        }
        let cache = GitignoreCache { matchers };
        assert(cache@ =~= no_matchers(len as nat));
        cache
    }

    /// Tells whether the entry at position `i` has a matcher.
    pub fn has_matcher(&self, i: usize) -> (present: bool)
        requires
            i < self@.len(),
        ensures
            present == self@[i as int] is Some,
    {
        self.matchers[i].is_some()
    }

    /// Asks the matcher at position `i` about a path relative to its
    /// directory. Where there is no matcher, nothing matches.
    pub fn verdict(&self, i: usize, path: &str, is_dir: bool) -> (verdict: Verdict)
        requires
            i < self@.len(),
            is_clean_relative(path@),
        ensures
            verdict == verdict_of(self@[i as int], path@, is_dir),
            has_no_rules(self@[i as int]) ==> verdict == Verdict::NoMatch,
    {
        match &self.matchers[i] {
            Some(matcher) => matched_verdict(matcher, path, is_dir),
            None => Verdict::NoMatch,
        }
    }
}

/// Whether a directory contributes no rules: it has no matcher, or its
/// matcher was built from no lines.
pub open spec fn has_no_rules(matcher: Option<MatcherView>) -> bool {
    match matcher {
        Some(view) => view.lines.len() == 0,
        None => true,
    }
}

/// Whether no directory of a walk contributes a rule.
pub open spec fn without_rules(cache: Seq<Option<MatcherView>>) -> bool {
    forall|i: int| 0 <= i < cache.len() ==> has_no_rules(#[trigger] cache[i])
}

/// What a matcher says of a path; without a matcher nothing matches.
pub open spec fn verdict_of(matcher: Option<MatcherView>, path: Seq<char>, is_dir: bool) -> Verdict {
    match matcher {
        Some(view) => gitignore_verdict(view.root, view.lines, path, is_dir),
        None => Verdict::NoMatch,
    }
}

/// Builds the matcher of every directory of the walk.
pub fn build_gitignore_cache(walk: &Walk) -> (cache: GitignoreCache)
    ensures
        cache@ == matchers_of(walk@),
        forall|i: int|
            0 <= i < walk@.len() && ignore_text(#[trigger] walk@[i]) is None ==> has_no_rules(
                cache@[i],
            ),
{
    let mut matchers: Vec<Option<Gitignore>> = Vec::with_capacity(walk.len());
    let mut i: usize = 0;
    while i < walk.len()
        invariant
            i <= walk@.len(),
            matchers@.len() == i,
            forall|k: int|
                0 <= k < i ==> match #[trigger] matchers@[k] {
                    Some(matcher) => matcher_of(walk@[k]) == Some(matcher_view(matcher)),
                    None => matcher_of(walk@[k]) is None,
                },
        decreases walk@.len() - i,
    {
        let entry = walk.entry(i);
        let mut built: Option<Gitignore> = None;
        if entry.kind == EntryKind::Directory {
            let content: Option<&str> = match &entry.ignore_file {
                Some(text) => Some(text.as_str()),
                None => None,
            };
            if let Ok(matcher) = build_gitignore(entry.path.as_str(), content) {
                built = Some(matcher);
            }
        }
        matchers.push(built);
        i += 1;
    }
    let cache = GitignoreCache { matchers };
    assert(cache@ =~= matchers_of(walk@));
    cache
}

/// What stands in front of an entry's name in its path relative to
/// `ancestor`: the relative path of its parent and a separator, where the
/// parent lies below `ancestor`.
pub open spec fn lead_of(entries: Seq<WalkEntry>, ancestor: int, i: int) -> Seq<char>
    decreases i, 0int,
{
    match parent_of(entries, i) {
        Some(p) => if 0 <= p < i && ancestor < p {
            relative_path_of(entries, ancestor, p) + seq!['/']
        } else {
            Seq::empty()
        },
        None => Seq::empty(),
    }
}

/// The path of entry `i` relative to the directory `ancestor` above it: the
/// names from below `ancestor` down to `i`, joined by separators. It is empty
/// where `i` is `ancestor` itself.
pub open spec fn relative_path_of(entries: Seq<WalkEntry>, ancestor: int, i: int) -> Seq<char>
    decreases i, 1int,
{
    if i <= ancestor || i < 0 || i >= entries.len() {
        Seq::empty()
    } else {
        lead_of(entries, ancestor, i) + entries[i].name@
    }
}

/// Computes the path of entry `i` relative to the directory `ancestor`.
pub fn relative_path(walk: &Walk, ancestor: usize, i: usize) -> (path: String)
    requires
        i < walk@.len(),
    ensures
        path@ == relative_path_of(walk@, ancestor as int, i as int),
        is_clean_relative(path@),
{
    if i <= ancestor {
        return String::new();
    }
    let ghost entries = walk@;
    let ghost a = ancestor as int;
    let mut current: usize = i;
    let mut tail: String = walk.entry(i).name.clone();
    let mut climbing = true;
    proof {
        reveal_strlit("/");
    }
    let _ = walk.parent(i);
    assert(follows(entries, i as int));
    while climbing
        invariant
            entries == walk@,
            a == ancestor as int,
            is_preorder(entries),
            "/"@ == seq!['/'],
            ancestor < current <= i < entries.len(),
            climbing ==> relative_path_of(entries, a, i as int) == lead_of(
                entries,
                a,
                current as int,
            ) + tail@,
            !climbing ==> relative_path_of(entries, a, i as int) == tail@,
            tail@.len() > 0,
            is_clean_relative(tail@),
        decreases
                current,
                if climbing {
                    1int
                } else {
                    0int
                },
    {
        let above: Option<usize> = match walk.parent(current) {
            Some(p) => if p > ancestor {
                Some(p)
            } else {
                None
            },
            None => None,
        };
        match above {
            Some(p) => {
                let ghost old_tail = tail@;
                let ghost upper_name = entries[p as int].name@;
                let mut longer: String = walk.entry(p).name.clone();
                longer.append("/");
                longer.append(tail.as_str());
                tail = longer;
                proof {
                    assert(tail@ =~= upper_name + seq!['/'] + old_tail);
                    assert(lead_of(entries, a, p as int) + tail@ =~= lead_of(
                        entries,
                        a,
                        current as int,
                    ) + old_tail);
                    assert(follows(entries, p as int));
                    assert forall|k: int| 0 <= k < tail@.len() - 1 implies !(#[trigger] tail@[k]
                        == '/' && tail@[k + 1] == '/') by {
                        if k < upper_name.len() {
                            assert(tail@[k] == upper_name[k]);
                        } else if k == upper_name.len() {
                            assert(tail@[k + 1] == old_tail[0]);
                        } else {
                            assert(tail@[k] == old_tail[k - upper_name.len() - 1]);
                            assert(tail@[k + 1] == old_tail[k - upper_name.len()]);
                        }
                    }
                    assert(tail@[0] == upper_name[0]);
                }
                current = p;
            },
            None => {
                proof {
                    assert(lead_of(entries, a, current as int) =~= Seq::<char>::empty());
                    assert(Seq::<char>::empty() + tail@ =~= tail@);
                }
                climbing = false;
            },
        }
    }
    tail
}

/// The directory whose rules, and those of the directories above it, apply
/// to entry `i`: the entry itself where it is a directory, else its parent.
pub open spec fn check_dir_of(entries: Seq<WalkEntry>, i: int) -> Option<int> {
    if entries[i].kind == EntryKind::Directory {
        Some(i)
    } else {
        parent_of(entries, i)
    }
}

/// The directories from `from` upwards that have a matcher, nearest first.
pub open spec fn matchers_above(
    entries: Seq<WalkEntry>,
    cache: Seq<Option<MatcherView>>,
    from: Option<int>,
) -> Seq<int>
    decreases
            match from {
                Some(d) => d + 1,
                None => 0,
            },
{
    match from {
        None => Seq::empty(),
        Some(d) => if d < 0 || d >= entries.len() || d >= cache.len() {
            Seq::empty()
        } else {
            let above = match parent_of(entries, d) {
                Some(p) => if 0 <= p < d {
                    matchers_above(entries, cache, Some(p))
                } else {
                    Seq::empty()
                },
                None => Seq::empty(),
            };
            if cache[d] is Some {
                seq![d] + above
            } else {
                above
            }
        },
    }
}

/// The directories from the root down to `from` that have a matcher, in the
/// order in which their rules are applied.
pub open spec fn gitignore_stack_of(
    entries: Seq<WalkEntry>,
    cache: Seq<Option<MatcherView>>,
    from: Option<int>,
) -> Seq<int> {
    matchers_above(entries, cache, from).reverse()
}

/// Positions in a walk, as integers.
pub open spec fn indices_of(stack: Seq<usize>) -> Seq<int> {
    Seq::new(stack.len(), |k: int| stack[k] as int)
}

/// Collects the directories from the root down to `check_dir` that have a
/// matcher.
pub fn build_gitignore_stack(walk: &Walk, cache: &GitignoreCache, check_dir: Option<usize>) -> (stack:
    Vec<usize>)
    requires
        cache@.len() == walk@.len(),
        check_dir matches Some(d) ==> d < walk@.len(),
    ensures
        indices_of(stack@) == gitignore_stack_of(
            walk@,
            cache@,
            match check_dir {
                Some(d) => Some(d as int),
                None => None,
            },
        ),
        forall|k: int| 0 <= k < stack@.len() ==> #[trigger] stack@[k] < walk@.len(),
{
    let ghost start: Option<int> = match check_dir {
        Some(d) => Some(d as int),
        None => None,
    };
    let ghost whole = matchers_above(walk@, cache@, start);
    let mut nearest_first: Vec<usize> = Vec::new();
    let mut current: Option<usize> = check_dir;
    while current.is_some()
        invariant
            cache@.len() == walk@.len(),
            current matches Some(d) ==> d < walk@.len(),
            whole == indices_of(nearest_first@) + matchers_above(
                walk@,
                cache@,
                match current {
                    Some(d) => Some(d as int),
                    None => None,
                },
            ),
            forall|k: int| 0 <= k < nearest_first@.len() ==> #[trigger] nearest_first@[k] < walk@.len(),
        decreases
                match current {
                    Some(d) => d + 1,
                    None => 0,
                },
    {
        let d = current.unwrap();
        let ghost before = indices_of(nearest_first@);
        let ghost rest = matchers_above(walk@, cache@, Some(d as int));
        if cache.has_matcher(d) {
            nearest_first.push(d);
        }
        current = walk.parent(d);
        proof {
            let above = matchers_above(
                walk@,
                cache@,
                match current {
                    Some(p) => Some(p as int),
                    None => None,
                },
            );
            if cache@[d as int] is Some {
                assert(indices_of(nearest_first@) =~= before + seq![d as int]);
                assert(rest == seq![d as int] + above);
                assert(whole =~= indices_of(nearest_first@) + above);
            } else {
                assert(indices_of(nearest_first@) =~= before);
                assert(rest == above);
            }
        }
    }
    proof {
        assert(whole =~= indices_of(nearest_first@));
    }
    let ghost collected = nearest_first@;
    let mut stack: Vec<usize> = Vec::with_capacity(nearest_first.len());
    while nearest_first.len() > 0
        invariant
            nearest_first@.len() + stack@.len() == collected.len(),
            nearest_first@ == collected.take(nearest_first@.len() as int),
            forall|k: int|
                0 <= k < stack@.len() ==> #[trigger] stack@[k] == collected[collected.len() - 1 - k],
        decreases nearest_first.len(),
    {
        let d = nearest_first.pop().unwrap();
        stack.push(d);
    }
    proof {
        assert(indices_of(stack@) =~= whole.reverse());
    }
    stack
}

/// The verdicts of the matchers at the positions in `stack` on entry `i`,
/// each asked about the entry's path relative to its own directory.
pub open spec fn verdicts_along(
    entries: Seq<WalkEntry>,
    cache: Seq<Option<MatcherView>>,
    stack: Seq<int>,
    i: int,
) -> Seq<Verdict> {
    Seq::new(
        stack.len(),
        |k: int|
            verdict_of(
                cache[stack[k]],
                relative_path_of(entries, stack[k], i),
                entries[i].kind == EntryKind::Directory,
            ),
    )
}

/// The decision after a run of verdicts, each later match overriding the
/// earlier ones; `None` while nothing has matched.
pub open spec fn running_decision(verdicts: Seq<Verdict>) -> Option<bool>
    decreases verdicts.len(),
{
    if verdicts.len() == 0 {
        None
    } else {
        match verdicts.last() {
            Verdict::Ignore => Some(true),
            Verdict::Whitelist => Some(false),
            Verdict::NoMatch => running_decision(verdicts.drop_last()),
        }
    }
}

/// Whether a run of verdicts, given in the order from the root down, leaves
/// the entry ignored: the last match decides, and without a match the entry
/// is kept.
pub open spec fn last_match_decides(verdicts: Seq<Verdict>) -> bool {
    running_decision(verdicts) == Some(true)
}

/// Asks each matcher of the stack in turn about entry `i` and lets the last
/// match decide. Directories that contribute no rules decide nothing.
pub fn apply_gitignore_rules(walk: &Walk, cache: &GitignoreCache, i: usize, gitignore_stack: &Vec<
    usize,
>) -> (ignored: bool)
    requires
        i < walk@.len(),
        cache@.len() == walk@.len(),
        forall|k: int| 0 <= k < gitignore_stack@.len() ==> #[trigger] gitignore_stack@[k] < walk@.len(),
    ensures
        ignored == last_match_decides(
            verdicts_along(walk@, cache@, indices_of(gitignore_stack@), i as int),
        ),
        (forall|k: int|
            0 <= k < gitignore_stack@.len() ==> has_no_rules(
                cache@[(#[trigger] gitignore_stack@[k]) as int],
            )) ==> !ignored,
{
    let ghost verdicts = verdicts_along(walk@, cache@, indices_of(gitignore_stack@), i as int);
    let is_dir = walk.entry(i).kind == EntryKind::Directory;
    let mut final_decision: Option<bool> = None;
    let mut k: usize = 0;
    while k < gitignore_stack.len()
        invariant
            k <= gitignore_stack@.len(),
            i < walk@.len(),
            cache@.len() == walk@.len(),
            is_dir == (walk@[i as int].kind == EntryKind::Directory),
            verdicts == verdicts_along(walk@, cache@, indices_of(gitignore_stack@), i as int),
            forall|j: int|
                0 <= j < gitignore_stack@.len() ==> #[trigger] gitignore_stack@[j] < walk@.len(),
            final_decision == running_decision(verdicts.take(k as int)),
            (forall|j: int|
                0 <= j < gitignore_stack@.len() ==> has_no_rules(
                    cache@[(#[trigger] gitignore_stack@[j]) as int],
                )) ==> final_decision is None,
        decreases gitignore_stack@.len() - k,
    {
        let dir = gitignore_stack[k];
        let path = relative_path(walk, dir, i);
        let matched = cache.verdict(dir, path.as_str(), is_dir);
        proof {
            assert(verdicts.take(k + 1).drop_last() =~= verdicts.take(k as int));
            assert(verdicts.take(k + 1).last() == matched);
        }
        match matched {
            Verdict::Ignore => {
                final_decision = Some(true);
            },
            Verdict::Whitelist => {
                final_decision = Some(false);
            },
            Verdict::NoMatch => {},
        }
        k += 1;
    }
    proof {
        assert(verdicts.take(k as int) =~= verdicts);
    }
    match final_decision {
        Some(decision) => decision,
        None => false,
    }
}

/// Whether the ignore files of the directories above entry `i` leave it
/// ignored.
pub open spec fn git_ignored(entries: Seq<WalkEntry>, cache: Seq<Option<MatcherView>>, i: int) -> bool {
    last_match_decides(
        verdicts_along(
            entries,
            cache,
            gitignore_stack_of(entries, cache, check_dir_of(entries, i)),
            i,
        ),
    )
}

/// Decides whether entry `i` is ignored by the ignore files above it. Where
/// no directory of the walk contributes a rule, nothing is ignored.
pub fn is_ignored_by_git(walk: &Walk, cache: &GitignoreCache, i: usize) -> (ignored: bool)
    requires
        i < walk@.len(),
        cache@.len() == walk@.len(),
    ensures
        ignored == git_ignored(walk@, cache@, i as int),
        without_rules(cache@) ==> !ignored,
{
    let check_dir: Option<usize> = if walk.entry(i).kind == EntryKind::Directory {
        Some(i)
    } else {
        walk.parent(i)
    };
    let gitignore_stack = build_gitignore_stack(walk, cache, check_dir);
    apply_gitignore_rules(walk, cache, i, &gitignore_stack)
}

/// The deepest directory whose rules match decides: an entry is ignored
/// exactly when the last verdict that is a match is `Ignore`.
pub proof fn lemma_nearest_match_wins(verdicts: Seq<Verdict>, k: int)
    requires
        0 <= k < verdicts.len(),
        verdicts[k] != Verdict::NoMatch,
        forall|j: int| k < j < verdicts.len() ==> verdicts[j] == Verdict::NoMatch,
    ensures
        last_match_decides(verdicts) == (verdicts[k] == Verdict::Ignore),
    decreases verdicts.len(),
{
    if k < verdicts.len() - 1 {
        let shorter = verdicts.drop_last();
        assert forall|j: int| k < j < shorter.len() implies shorter[j] == Verdict::NoMatch by {
            assert(shorter[j] == verdicts[j]);
        }
        lemma_nearest_match_wins(shorter, k);
    }
}

/// Where no directory's rules match, the entry is not ignored.
pub proof fn lemma_no_match_keeps(verdicts: Seq<Verdict>)
    requires
        forall|j: int| 0 <= j < verdicts.len() ==> verdicts[j] == Verdict::NoMatch,
    ensures
        !last_match_decides(verdicts),
    decreases verdicts.len(),
{
    if verdicts.len() > 0 {
        let shorter = verdicts.drop_last();
        assert forall|j: int| 0 <= j < shorter.len() implies shorter[j] == Verdict::NoMatch by {
            assert(shorter[j] == verdicts[j]);
        }
        lemma_no_match_keeps(shorter);
    }
}

} // verus!
