//! The result of a directory walk: every surviving entry in the order the
//! traversal met it, a directory before what it holds.

use vstd::prelude::*;

verus! {

/// What a directory entry is. A symbolic link is `Other`: links are not
/// followed.
#[derive(Clone, Copy, Debug, PartialEq, Eq, Structural)]
pub enum EntryKind {
    Directory,
    File,
    Other,
}

/// One entry of a walk.
#[derive(Clone, Debug)]
pub struct WalkEntry {
    /// The path under which the entry was found.
    pub path: String,
    /// The entry's own name, without its directory.
    pub name: String,
    /// How many directories lie between the root of the walk and the entry;
    /// the root itself has depth 0.
    pub depth: usize,
    pub kind: EntryKind,
    /// For a directory, the text of the ignore file directly inside it, where
    /// there is one that could be read.
    pub ignore_file: Option<String>,
}

/// Whether a text can be the name of an entry below the root: it is not
/// empty and holds no `/`, the separator by which the library joins names to
/// paths. Names are read by the rules of systems on which `/` alone separates
/// the parts of a path.
pub open spec fn is_entry_name(name: Seq<char>) -> bool {
    name.len() > 0 && forall|i: int| 0 <= i < name.len() ==> name[i] != '/'
}

/// Whether the entries list a tree in pre-order: the first is the root, and
/// each later one lies below the root, at most one level deeper than the entry
/// before it, and deeper than it only if that entry is a directory.
pub open spec fn is_preorder(entries: Seq<WalkEntry>) -> bool {
    &&& entries.len() > 0 ==> entries[0].depth == 0
    &&& forall|i: int| 1 <= i < entries.len() ==> #[trigger] follows(entries, i)
}

/// Whether entry `i` may follow the entry before it in a pre-order listing.
pub open spec fn follows(entries: Seq<WalkEntry>, i: int) -> bool {
    &&& 1 <= entries[i].depth <= entries[i - 1].depth + 1
    &&& entries[i].depth == entries[i - 1].depth + 1 ==> entries[i - 1].kind
        == EntryKind::Directory
    &&& is_entry_name(entries[i].name@)
}

/// The nearest entry at or before `upto` that lies less deep than `depth`.
pub open spec fn shallower_before(entries: Seq<WalkEntry>, depth: usize, upto: int) -> Option<int>
    decreases upto + 1,
{
    if upto < 0 || upto >= entries.len() {
        None
    } else if entries[upto].depth < depth {
        Some(upto)
    } else {
        shallower_before(entries, depth, upto - 1)
    }
}

/// The directory that holds entry `i`: the nearest earlier entry that lies
/// less deep. The root has none.
pub open spec fn parent_of(entries: Seq<WalkEntry>, i: int) -> Option<int> {
    if 0 <= i < entries.len() {
        shallower_before(entries, entries[i].depth, i - 1)
    } else {
        None
    }
}

/// Whatever `shallower_before` finds lies before `upto + 1` and less deep
/// than asked.
pub proof fn lemma_shallower_before(entries: Seq<WalkEntry>, depth: usize, upto: int)
    ensures
        shallower_before(entries, depth, upto) matches Some(p) ==> 0 <= p <= upto && p
            < entries.len() && entries[p].depth < depth,
    decreases upto + 1,
{
    if 0 <= upto < entries.len() && entries[upto].depth >= depth {
        lemma_shallower_before(entries, depth, upto - 1);
    }
}

/// A parent comes before its child and lies less deep.
pub proof fn lemma_parent_of(entries: Seq<WalkEntry>, i: int)
    ensures
        parent_of(entries, i) matches Some(p) ==> 0 <= p < i && i < entries.len()
            && entries[p].depth < entries[i].depth,
{
    if 0 <= i < entries.len() {
        lemma_shallower_before(entries, entries[i].depth, i - 1);
    }
}

/// The search for an entry less deep than `depth` may skip from an entry that
/// is not to that entry's own parent.
proof fn lemma_skip_to_parent(entries: Seq<WalkEntry>, depth: usize, other: usize, upto: int)
    requires
        depth <= other,
    ensures
        shallower_before(entries, depth, upto) == match shallower_before(entries, other, upto) {
            Some(q) => shallower_before(entries, depth, q),
            None => None,
        },
    decreases upto + 1,
{
    if 0 <= upto < entries.len() && entries[upto].depth >= other {
        lemma_skip_to_parent(entries, depth, other, upto - 1);
    }
}

/// The entries of a walk, each with the directory that holds it.
pub struct Walk {
    entries: Vec<WalkEntry>,
    parents: Vec<Option<usize>>,
}

impl View for Walk {
    type V = Seq<WalkEntry>;

    closed spec fn view(&self) -> Seq<WalkEntry> {
        self.entries@
    }
}

/// Whether `parents` names, for each of the first `n` entries, the directory
/// that holds it.
pub open spec fn parents_linked(entries: Seq<WalkEntry>, parents: Seq<Option<usize>>, n: int) -> bool {
    &&& parents.len() == n
    &&& forall|i: int|
        0 <= i < n ==> match #[trigger] parents[i] {
            Some(p) => parent_of(entries, i) == Some(p as int),
            None => parent_of(entries, i) is None,
        }
}

/// Tells whether a text can be the name of an entry below the root.
pub fn check_entry_name(name: &str) -> (valid: bool)
    ensures
        valid == is_entry_name(name@),
{
    let mut clean = true;
    let ghost mut seen: int = 0;
    for c in it: name.chars()
        invariant
            it.seq() == name@,
            seen == it.index(),
            clean == forall|i: int| 0 <= i < seen ==> name@[i] != '/',
    {
        if c == '/' {
            clean = false;
        }
        proof {
            seen = seen + 1;
        }
    }
    clean && !name.is_empty()
}

/// Tells whether the entries list a tree in pre-order.
pub fn check_preorder(entries: &Vec<WalkEntry>) -> (valid: bool)
    ensures
        valid == is_preorder(entries@),
{
    if entries.len() == 0 {
        return true;
    }
    if entries[0].depth != 0 {
        return false;
    }
    let mut i: usize = 1;
    while i < entries.len()
        invariant
            1 <= i <= entries.len(),
            entries@[0].depth == 0,
            forall|j: int| 1 <= j < i ==> #[trigger] follows(entries@, j),
        decreases entries.len() - i,
    {
        let depth = entries[i].depth;
        let before = entries[i - 1].depth;
        let below_root = 1 <= depth && depth - 1 <= before;
        let inside_directory = depth <= before || entries[i - 1].kind == EntryKind::Directory;
        if !(below_root && inside_directory && check_entry_name(entries[i].name.as_str())) {
            assert(!follows(entries@, i as int));
            return false;
        }
        i += 1;
    }
    true
}

impl Walk {
    /// Every walk lists a tree in pre-order and knows each entry's parent.
    #[verifier::type_invariant]
    spec fn wf(&self) -> bool {
        &&& is_preorder(self.entries@)
        &&& parents_linked(self.entries@, self.parents@, self.entries@.len() as int)
    }

    /// Takes the entries of a walk in the order the traversal met them.
    /// `None` is returned where they do not list a tree in pre-order.
    pub fn new(entries: Vec<WalkEntry>) -> (walk: Option<Walk>)
        ensures
            walk is Some <==> is_preorder(entries@),
            walk matches Some(w) ==> w@ == entries@,
    {
        if !check_preorder(&entries) {
            return None;
        }
        let mut parents: Vec<Option<usize>> = Vec::with_capacity(entries.len());
        let mut i: usize = 0;
        while i < entries.len()
            invariant
                i <= entries.len(),
                parents_linked(entries@, parents@, i as int),
            decreases entries.len() - i,
        {
            let depth = entries[i].depth;
            let mut candidate: Option<usize> = if i == 0 {
                None
            } else {
                Some(i - 1)
            };
            let mut found = false;
            while !found && candidate.is_some()
                invariant
                    i < entries.len(),
                    depth == entries@[i as int].depth,
                    parents_linked(entries@, parents@, i as int),
                    candidate matches Some(k) ==> k < i,
                    parent_of(entries@, i as int) == match candidate {
                        Some(k) => shallower_before(entries@, depth, k as int),
                        None => None,
                    },
                    found ==> (candidate matches Some(k) && entries@[k as int].depth < depth),
                decreases
                        match candidate {
                            Some(k) => k + 1,
                            None => 0,
                        },
                        if found {
                            0int
                        } else {
                            1int
                        },
            {
                let k = candidate.unwrap();
                if entries[k].depth < depth {
                    found = true;
                } else {
                    proof {
                        lemma_skip_to_parent(
                            entries@,
                            depth,
                            entries@[k as int].depth,
                            k as int - 1,
                        );
                        lemma_parent_of(entries@, k as int);
                    }
                    candidate = parents[k];
                }
            }
            parents.push(candidate);
            i += 1;
        }
        Some(Walk { entries, parents })
    }

    /// How many entries the walk holds.
    pub fn len(&self) -> (n: usize)
        ensures
            n == self@.len(),
    {
        self.entries.len()
    }

    /// The entry at position `i`.
    pub fn entry(&self, i: usize) -> (entry: &WalkEntry)
        requires
            i < self@.len(),
        ensures
            *entry == self@[i as int],
    {
        &self.entries[i]
    }

    /// The position of the directory that holds entry `i`.
    pub fn parent(&self, i: usize) -> (parent: Option<usize>)
        requires
            i < self@.len(),
        ensures
            match parent {
                Some(p) => parent_of(self@, i as int) == Some(p as int) && p < i,
                None => parent_of(self@, i as int) is None,
            },
            is_preorder(self@),
    {
        proof {
            use_type_invariant(self);
            lemma_parent_of(self.entries@, i as int);
        }
        self.parents[i]
    }
}

} // verus!
