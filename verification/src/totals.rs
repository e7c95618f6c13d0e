//! Running totals of countable lines, one per file extension.

use vstd::prelude::*;

verus! {

/// The first position at or after `from` whose key is `key`, or -1.
pub open spec fn position_of(keys: Seq<String>, key: Seq<char>, from: int) -> int
    decreases keys.len() - from,
{
    if from < 0 || from >= keys.len() {
        -1
    } else if keys[from]@ == key {
        from
    } else {
        position_of(keys, key, from + 1)
    }
}

/// `position_of` finds the first position that holds the key, if any does.
pub proof fn lemma_position_of(keys: Seq<String>, key: Seq<char>, from: int)
    requires
        0 <= from,
    ensures
        position_of(keys, key, from) == -1 || (from <= position_of(keys, key, from) < keys.len()
            && keys[position_of(keys, key, from)]@ == key),
        forall|j: int|
            from <= j < keys.len() && keys[j]@ == key ==> from <= position_of(keys, key, from) <= j,
    decreases keys.len() - from,
{
    if from < keys.len() && keys[from]@ != key {
        lemma_position_of(keys, key, from + 1);
    }
}

/// Whether no key occurs twice.
pub open spec fn keys_distinct(keys: Seq<String>) -> bool {
    forall|i: int, j: int| 0 <= i < j < keys.len() ==> (#[trigger] keys[i])@ != (#[trigger] keys[j])@
}

/// A total of countable lines for each extension that has been given one;
/// every other extension stands at zero.
pub struct ExtensionTotals {
    extensions: Vec<String>,
    counts: Vec<usize>,
}

impl ExtensionTotals {
    /// Whether each extension is listed once, beside its count.
    pub closed spec fn wf(&self) -> bool {
        &&& self.extensions@.len() == self.counts@.len()
        &&& keys_distinct(self.extensions@)
    }

    /// The total that stands for an extension.
    pub closed spec fn total(&self, extension: Seq<char>) -> nat {
        let at = position_of(self.extensions@, extension, 0);
        if 0 <= at < self.counts@.len() {
            self.counts@[at] as nat
        } else {
            0
        }
    }

    /// Every total fits in a `usize`.
    pub proof fn lemma_total_fits(self, extension: Seq<char>)
        ensures
            self.total(extension) <= usize::MAX,
    {
    }

    /// Totals that stand at zero for every extension.
    pub fn new() -> (totals: ExtensionTotals)
        ensures
            totals.wf(),
            forall|extension: Seq<char>| #[trigger] totals.total(extension) == 0,
    {
        ExtensionTotals { extensions: Vec::new(), counts: Vec::new() }
    }

    /// Where an extension is listed, if it is.
    fn find(&self, extension: &String) -> (found: Option<usize>)
        requires
            self.wf(),
        ensures
            match found {
                Some(at) => at < self.extensions@.len() && at == position_of(
                    self.extensions@,
                    extension@,
                    0,
                ),
                None => position_of(self.extensions@, extension@, 0) == -1,
            },
    {
        let mut i: usize = 0;
        while i < self.extensions.len()
            invariant
                i <= self.extensions@.len(),
                position_of(self.extensions@, extension@, 0) == position_of(
                    self.extensions@,
                    extension@,
                    i as int,
                ),
            decreases self.extensions@.len() - i,
        {
            if self.extensions[i] == *extension {
                return Some(i);
            }
            i += 1;
        }
        None
    }

    /// Reads the total of an extension.
    pub fn get(&self, extension: &String) -> (count: usize)
        requires
            self.wf(),
        ensures
            count == self.total(extension@),
    {
        match self.find(extension) {
            Some(at) => self.counts[at],
            None => 0,
        }
    }

    /// Adds `lines` to the total of an extension. Where the sum does not fit,
    /// nothing changes and `false` is returned.
    pub fn add(&mut self, extension: String, lines: usize) -> (fits: bool)
        requires
            old(self).wf(),
        ensures
            final(self).wf(),
            fits == (old(self).total(extension@) + lines <= usize::MAX),
            fits ==> forall|other: Seq<char>|
                #[trigger] final(self).total(other) == old(self).total(other) + if other
                    == extension@ {
                    lines as nat
                } else {
                    0
                },
            !fits ==> forall|other: Seq<char>|
                #[trigger] final(self).total(other) == old(self).total(other),
    {
        let ghost keys = self.extensions@;
        let ghost counts = self.counts@;
        match self.find(&extension) {
            Some(at) => {
                let sum = self.counts[at].checked_add(lines);
                match sum {
                    Some(raised) => {
                        self.counts.set(at, raised);
                        proof {
                            assert forall|other: Seq<char>| #[trigger]
                                self.total(other) == old(self).total(other) + if other
                                    == extension@ {
                                    lines as nat
                                } else {
                                    0
                                } by {
                                lemma_position_of(keys, other, 0);
                                lemma_position_of(keys, extension@, 0);
                            }
                        }
                        true
                    },
                    None => false,
                }
            },
            None => {
                self.extensions.push(extension);
                self.counts.push(lines);
                proof {
                    let longer = self.extensions@;
                    assert forall|i: int, j: int| 0 <= i < j < longer.len() implies (
                    #[trigger] longer[i])@ != (#[trigger] longer[j])@ by {
                        if j == keys.len() {
                            lemma_position_of(keys, extension@, 0);
                            assert(longer[i] == keys[i]);
                        } else {
                            assert(longer[i] == keys[i] && longer[j] == keys[j]);
                        }
                    }
                    assert forall|other: Seq<char>| #[trigger]
                        self.total(other) == old(self).total(other) + if other == extension@ {
                            lines as nat
                        } else {
                            0
                        } by {
                        lemma_position_after_push(keys, extension, other, 0);
                        lemma_position_of(keys, other, 0);
                    }
                }
                true
            },
        }
    }

    /// Tells whether every total of `other` can be added to the total of the
    /// same extension here.
    pub fn fits_with(&self, other: &ExtensionTotals) -> (fits: bool)
        requires
            self.wf(),
            other.wf(),
        ensures
            fits == (forall|extension: Seq<char>|
                self.total(extension) + #[trigger] other.total(extension) <= usize::MAX),
    {
        let ghost keys = other.extensions@;
        let mut i: usize = 0;
        while i < other.extensions.len()
            invariant
                i <= other.extensions@.len(),
                keys == other.extensions@,
                other.wf(),
                self.wf(),
                forall|k: int|
                    0 <= k < i ==> self.total((#[trigger] keys[k])@) + other.counts@[k]
                        <= usize::MAX,
            decreases other.extensions@.len() - i,
        {
            proof {
                lemma_position_of(keys, keys[i as int]@, 0);
            }
            if self.get(&other.extensions[i]).checked_add(other.counts[i]).is_none() {
                proof {
                    assert(other.total(keys[i as int]@) == other.counts@[i as int]);
                    assert(self.total(keys[i as int]@) + other.total(keys[i as int]@) > usize::MAX);
                }
                return false;
            }
            i += 1;
        }
        proof {
            assert forall|extension: Seq<char>|
                self.total(extension) + #[trigger] other.total(extension) <= usize::MAX by {
                lemma_position_of(keys, extension, 0);
                let at = position_of(keys, extension, 0);
                if at != -1 {
                    assert(self.total(keys[at]@) + other.counts@[at] <= usize::MAX);
                }
            }
        }
        true
    }

    /// Adds every total of `other` to the total of the same extension here.
    /// Where one of the sums does not fit, nothing changes and `false` is
    /// returned.
    pub fn merge(&mut self, other: &ExtensionTotals) -> (fits: bool)
        requires
            old(self).wf(),
            other.wf(),
        ensures
            final(self).wf(),
            fits == (forall|extension: Seq<char>|
                old(self).total(extension) + #[trigger] other.total(extension) <= usize::MAX),
            fits ==> forall|extension: Seq<char>|
                #[trigger] final(self).total(extension) == old(self).total(extension)
                    + other.total(extension),
            !fits ==> forall|extension: Seq<char>|
                #[trigger] final(self).total(extension) == old(self).total(extension),
    {
        if !self.fits_with(other) {
            return false;
        }
        let ghost keys = other.extensions@;
        let mut i: usize = 0;
        while i < other.extensions.len()
            invariant
                i <= other.extensions@.len(),
                keys == other.extensions@,
                other.wf(),
                self.wf(),
                forall|extension: Seq<char>|
                    old(self).total(extension) + #[trigger] other.total(extension) <= usize::MAX,
                forall|extension: Seq<char>|
                    #[trigger] self.total(extension) == old(self).total(extension) + if 0
                        <= position_of(keys, extension, 0) < i {
                        other.total(extension)
                    } else {
                        0
                    },
            decreases other.extensions@.len() - i,
        {
            let ghost before = *self;
            let key = other.extensions[i].clone();
            proof {
                lemma_position_of(keys, key@, 0);
                assert(position_of(keys, key@, 0) == i);
                assert(before.total(key@) == old(self).total(key@));
                assert(other.total(key@) == other.counts@[i as int]);
            }
            let added = self.add(key, other.counts[i]);
            proof {
                assert(added);
                assert forall|extension: Seq<char>| #[trigger]
                    self.total(extension) == old(self).total(extension) + if 0 <= position_of(
                        keys,
                        extension,
                        0,
                    ) < i + 1 {
                        other.total(extension)
                    } else {
                        0
                    } by {
                    lemma_position_of(keys, extension, 0);
                    assert(self.total(extension) == before.total(extension) + if extension
                        == key@ {
                        other.counts@[i as int] as nat
                    } else {
                        0
                    });
                }
            }
            i += 1;
        }
        proof {
            assert forall|extension: Seq<char>| #[trigger]
                self.total(extension) == old(self).total(extension) + other.total(
                    extension,
                ) by {
                lemma_position_of(keys, extension, 0);
            }
        }
        true
    }
}

/// A key pushed onto a list that lacks it is found at the end; every other
/// key is found where it was.
proof fn lemma_position_after_push(keys: Seq<String>, pushed: String, key: Seq<char>, from: int)
    requires
        0 <= from <= keys.len(),
        position_of(keys, pushed@, 0) == -1,
    ensures
        position_of(keys.push(pushed), key, from) == if position_of(keys, key, from) != -1 {
            position_of(keys, key, from)
        } else if key == pushed@ {
            keys.len() as int
        } else {
            -1
        },
    decreases keys.len() - from,
{
    let longer = keys.push(pushed);
    if from < keys.len() {
        assert(longer[from] == keys[from]);
        if keys[from]@ != key {
            lemma_position_after_push(keys, pushed, key, from + 1);
        }
    } else {
        assert(longer[from] == pushed);
        assert(position_of(longer, key, from + 1) == -1);
    }
}

} // verus!
