//! Text primitives shared by the inclusion rules and the line counter.

use vstd::prelude::*;

verus! {

/// Whether the text begins with a dot.
pub open spec fn starts_with_dot(name: Seq<char>) -> bool {
    name.len() > 0 && name[0] == '.'
}

/// Tells whether a name begins with a dot.
pub fn has_leading_dot(name: &str) -> (dotted: bool)
    ensures
        dotted == starts_with_dot(name@),
{
    !name.is_empty() && name.get_char(0) == '.'
}

/// The position of the last dot in `name`, or -1 where it holds none.
pub open spec fn last_dot(name: Seq<char>) -> int
    decreases name.len(),
{
    if name.len() == 0 {
        -1
    } else if name.last() == '.' {
        name.len() - 1
    } else {
        last_dot(name.drop_last())
    }
}

/// `last_dot` points at a dot after which no further dot follows.
pub proof fn lemma_last_dot(name: Seq<char>)
    ensures
        -1 <= last_dot(name) < name.len(),
        last_dot(name) >= 0 ==> name[last_dot(name)] == '.',
        forall|j: int| last_dot(name) < j < name.len() ==> name[j] != '.',
    decreases name.len(),
{
    if name.len() > 0 && name.last() != '.' {
        let front = name.drop_last();
        lemma_last_dot(front);
        assert forall|j: int| last_dot(name) < j < name.len() implies name[j] != '.' by {
            if j < front.len() {
                assert(name[j] == front[j]);
            }
        }
    }
}

/// Whether the name is `..`, the parent directory.
pub open spec fn is_parent_dir(name: Seq<char>) -> bool {
    name.len() == 2 && name[0] == '.' && name[1] == '.'
}

/// The extension of a file name: what follows its last dot, provided that dot
/// is not the name's first character and the name is not `..`.
pub open spec fn extension_of(name: Seq<char>) -> Option<Seq<char>> {
    let dot = last_dot(name);
    if dot <= 0 || is_parent_dir(name) {
        None
    } else {
        Some(name.subrange(dot + 1, name.len() as int))
    }
}

/// The extension of a file name, if it has one.
pub fn file_extension(name: &str) -> (ext: Option<&str>)
    ensures
        match ext {
            Some(e) => extension_of(name@) == Some(e@),
            None => extension_of(name@) is None,
        },
{
    let total: usize = name.unicode_len();
    let mut dot: Option<usize> = None;
    let mut len: usize = 0;
    for c in it: name.chars()
        invariant
            it.seq() == name@,
            len == it.index(),
            total == name@.len(),
            match dot {
                Some(d) => d == last_dot(name@.take(len as int)),
                None => last_dot(name@.take(len as int)) == -1,
            },
    {
        assert(name@.take(len + 1).drop_last() == name@.take(len as int));
        if c == '.' {
            dot = Some(len);
        }
        len = len + 1;
    }
    assert(name@.take(len as int) == name@);
    proof {
        lemma_last_dot(name@);
    }
    match dot {
        Some(d) => {
            if d == 0 || (len == 2 && d == 1 && name.get_char(0) == '.') {
                None
            } else {
                Some(name.substring_char(d + 1, len))
            }
        },
        None => None,
    }
}

/// How many times `mark` stands at the front of the text.
pub open spec fn leading_run(text: Seq<char>, mark: char) -> nat
    decreases text.len(),
{
    if text.len() > 0 && text[0] == mark {
        1 + leading_run(text.drop_first(), mark)
    } else {
        0
    }
}

/// The text without the run of `mark` at its front.
pub open spec fn without_leading(text: Seq<char>, mark: char) -> Seq<char> {
    text.skip(leading_run(text, mark) as int)
}

/// The run of marks at the front grows with the text only while the text is
/// marks throughout.
pub proof fn lemma_leading_run_push(text: Seq<char>, mark: char, c: char)
    ensures
        leading_run(text, mark) <= text.len(),
        leading_run(text.push(c), mark) == if leading_run(text, mark) == text.len() && c == mark {
            text.len() + 1
        } else {
            leading_run(text, mark)
        },
    decreases text.len(),
{
    let longer = text.push(c);
    if text.len() == 0 {
        assert(longer.drop_first() =~= Seq::<char>::empty());
        assert(leading_run(longer.drop_first(), mark) == 0);
    } else {
        assert(longer.drop_first() =~= text.drop_first().push(c));
        assert(longer[0] == text[0]);
        lemma_leading_run_push(text.drop_first(), mark, c);
    }
}

/// Removes the run of `mark` at the front of a text.
pub fn strip_leading(text: &str, mark: char) -> (rest: &str)
    ensures
        rest@ == without_leading(text@, mark),
{
    let total: usize = text.unicode_len();
    let mut marks: usize = 0;
    let mut seen: usize = 0;
    for c in it: text.chars()
        invariant
            it.seq() == text@,
            seen == it.index(),
            total == text@.len(),
            marks == leading_run(text@.take(seen as int), mark),
            marks <= seen,
    {
        proof {
            let before = text@.take(seen as int);
            assert(text@.take(seen + 1) =~= before.push(c));
            lemma_leading_run_push(before, mark, c);
        }
        if marks == seen && c == mark {
            marks = seen + 1;
        }
        seen = seen + 1;
    }
    proof {
        assert(text@.take(seen as int) =~= text@);
    }
    text.substring_char(marks, total)
}

/// The lower-case form of a text: what `str::to_lowercase` returns for it.
pub uninterp spec fn lowercase_of(text: Seq<char>) -> Seq<char>;

/// `str::to_lowercase` maps a text to its lower-case form, which depends on
/// the text alone.
pub assume_specification[ str::to_lowercase ](s: &str) -> (lower: String)
    ensures
        lower@ == lowercase_of(s@),
;

/// The lower-case forms of a list of texts.
pub open spec fn lowered(list: Seq<String>) -> Seq<Seq<char>> {
    Seq::new(list.len(), |i: int| lowercase_of(list[i]@))
}

/// Looks a text up among the lower-case forms of a list of texts.
pub fn lowered_contains(list: &Vec<String>, item: &str) -> (found: bool)
    ensures
        found == lowered(list@).contains(item@),
{
    let wanted = item.to_owned();
    let mut i: usize = 0;
    while i < list.len()
        invariant
            i <= list.len(),
            wanted@ == item@,
            forall|j: int| 0 <= j < i ==> lowercase_of((#[trigger] list@[j])@) != item@,
        decreases list.len() - i,
    {
        if list[i].as_str().to_lowercase() == wanted {
            assert(lowered(list@)[i as int] == item@);
            return true;
        }
        i += 1;
    }
    assert forall|j: int| 0 <= j < lowered(list@).len() implies lowered(list@)[j] != item@ by {
        assert(lowered(list@)[j] == lowercase_of(list@[j]@));
    }
    false
}

/// A character with the letters `A` to `Z` mapped to `a` to `z`.
pub open spec fn ascii_lower(c: char) -> char {
    if 0x41 <= c as u32 <= 0x5a {
        ((c as u8) + 32) as char
    } else {
        c
    }
}

/// A text with the letters `A` to `Z` mapped to `a` to `z` and every other
/// character left as it is.
pub open spec fn ascii_lowercase_of(text: Seq<char>) -> Seq<char> {
    Seq::new(text.len(), |i: int| ascii_lower(text[i]))
}

/// `str::to_ascii_lowercase` maps the ASCII letters `A` to `Z` to `a` to `z`
/// and leaves every other character unchanged.
pub assume_specification[ str::to_ascii_lowercase ](s: &str) -> (lower: String)
    ensures
        lower@ == ascii_lowercase_of(s@),
;

/// Whether a character has the Unicode `White_Space` property: what
/// `char::is_whitespace` returns for it.
pub uninterp spec fn char_is_whitespace(c: char) -> bool;

/// `char::is_whitespace` tells whether a character has the `White_Space`
/// property, which depends on the character alone. The space, the tab and
/// the line feed have it: std's documentation shows them as whitespace.
pub assume_specification[ char::is_whitespace ](c: char) -> (white: bool)
    ensures
        white == char_is_whitespace(c),
        c == ' ' || c == '\t' || c == '\n' ==> white,
;

/// How many whitespace characters stand at the front of the text.
pub open spec fn leading_whitespace(text: Seq<char>) -> nat
    decreases text.len(),
{
    if text.len() > 0 && char_is_whitespace(text[0]) {
        1 + leading_whitespace(text.drop_first())
    } else {
        0
    }
}

/// How many whitespace characters stand at the end of the text.
pub open spec fn trailing_whitespace(text: Seq<char>) -> nat
    decreases text.len(),
{
    if text.len() > 0 && char_is_whitespace(text.last()) {
        1 + trailing_whitespace(text.drop_last())
    } else {
        0
    }
}

/// The text without the whitespace around it. A text of whitespace alone
/// trims to the empty text.
pub open spec fn trimmed(text: Seq<char>) -> Seq<char> {
    let start = leading_whitespace(text) as int;
    let end = text.len() - trailing_whitespace(text);
    if start >= end {
        Seq::empty()
    } else {
        text.subrange(start, end)
    }
}

/// Whether a line is blank: nothing is left of it once the whitespace around
/// it is trimmed off.
pub open spec fn is_blank(line: Seq<char>) -> bool {
    trimmed(line).len() == 0
}

/// Whether every character of a text is whitespace.
pub open spec fn all_whitespace(text: Seq<char>) -> bool {
    forall|i: int| 0 <= i < text.len() ==> char_is_whitespace(#[trigger] text[i])
}

/// The leading run of whitespace grows with the text only while the text is
/// whitespace throughout.
pub proof fn lemma_leading_whitespace_push(text: Seq<char>, c: char)
    ensures
        leading_whitespace(text) <= text.len(),
        leading_whitespace(text.push(c)) == if leading_whitespace(text) == text.len()
            && char_is_whitespace(c) {
            text.len() + 1
        } else {
            leading_whitespace(text)
        },
    decreases text.len(),
{
    let longer = text.push(c);
    if text.len() == 0 {
        assert(longer.drop_first() =~= Seq::<char>::empty());
        assert(leading_whitespace(longer.drop_first()) == 0);
    } else {
        assert(longer.drop_first() =~= text.drop_first().push(c));
        assert(longer[0] == text[0]);
        lemma_leading_whitespace_push(text.drop_first(), c);
    }
}

/// A text is whitespace throughout exactly when its leading run of
/// whitespace covers it.
pub proof fn lemma_all_whitespace_is_all_leading(text: Seq<char>)
    ensures
        all_whitespace(text) <==> leading_whitespace(text) == text.len(),
        leading_whitespace(text) <= text.len(),
    decreases text.len(),
{
    if text.len() > 0 {
        let rest = text.drop_first();
        lemma_all_whitespace_is_all_leading(rest);
        if all_whitespace(text) {
            assert forall|i: int| 0 <= i < rest.len() implies char_is_whitespace(
                #[trigger] rest[i],
            ) by {
                assert(rest[i] == text[i + 1]);
            }
        }
        if leading_whitespace(text) == text.len() {
            assert forall|i: int| 0 <= i < text.len() implies char_is_whitespace(
                #[trigger] text[i],
            ) by {
                if i > 0 {
                    assert(text[i] == rest[i - 1]);
                }
            }
        }
    }
}

/// A text is blank exactly when it holds nothing but whitespace.
pub proof fn lemma_blank_is_all_whitespace(text: Seq<char>)
    ensures
        is_blank(text) <==> all_whitespace(text),
{
    lemma_all_whitespace_is_all_leading(text);
    lemma_whitespace_runs(text);
}

/// The two runs of whitespace meet only in a blank text.
pub proof fn lemma_whitespace_runs(text: Seq<char>)
    ensures
        leading_whitespace(text) <= text.len(),
        trailing_whitespace(text) <= text.len(),
        leading_whitespace(text) < text.len() ==> leading_whitespace(text) + trailing_whitespace(
            text,
        ) < text.len(),
        leading_whitespace(text) < text.len() ==> !char_is_whitespace(
            text[leading_whitespace(text) as int],
        ),
    decreases text.len(),
{
    lemma_all_whitespace_is_all_leading(text);
    if text.len() > 0 {
        let front = text.drop_last();
        lemma_whitespace_runs(front);
        lemma_all_whitespace_is_all_leading(front);
        assert(front.push(text.last()) =~= text);
        lemma_leading_whitespace_push(front, text.last());
    }
}

/// Removes the whitespace around a text.
pub fn trim_text(text: &str) -> (inner: &str)
    ensures
        inner@ == trimmed(text@),
{
    let total: usize = text.unicode_len();
    let mut start: usize = 0;
    let mut end: usize = 0;
    let mut seen: usize = 0;
    for c in it: text.chars()
        invariant
            it.seq() == text@,
            seen == it.index(),
            total == text@.len(),
            start == leading_whitespace(text@.take(seen as int)),
            end == seen - trailing_whitespace(text@.take(seen as int)),
            start <= seen,
            end <= seen,
    {
        proof {
            let before = text@.take(seen as int);
            assert(text@.take(seen + 1) =~= before.push(c));
            assert(before.push(c).drop_last() =~= before);
            lemma_leading_whitespace_push(before, c);
        }
        if c.is_whitespace() {
            if start == seen {
                start = seen + 1;
            }
        } else {
            end = seen + 1;
        }
        seen = seen + 1;
    }
    proof {
        assert(text@.take(seen as int) =~= text@);
    }
    if start >= end {
        text.substring_char(0, 0)
    } else {
        text.substring_char(start, end)
    }
}

/// Whether a text is made of spaces, tabs and line feeds alone. Such a text
/// is blank; the empty text is one.
pub open spec fn is_plainly_blank(text: Seq<char>) -> bool {
    forall|i: int|
        0 <= i < text.len() ==> (#[trigger] text[i]) == ' ' || text[i] == '\t' || text[i] == '\n'
}

/// Tells whether a line is blank. A line of spaces and tabs alone is.
pub fn line_is_blank(line: &str) -> (blank: bool)
    ensures
        blank == is_blank(line@),
        is_plainly_blank(line@) ==> blank,
{
    proof {
        lemma_blank_is_all_whitespace(line@);
    }
    let ghost mut seen: int = 0;
    for c in it: line.chars()
        invariant
            it.seq() == line@,
            seen == it.index(),
            is_blank(line@) <==> all_whitespace(line@),
            forall|i: int| 0 <= i < seen ==> char_is_whitespace(#[trigger] line@[i]),
    {
        if !c.is_whitespace() {
            assert(!char_is_whitespace(line@[seen]));
            assert(!(line@[seen] == ' ' || line@[seen] == '\t' || line@[seen] == '\n'));
            return false;
        }
        proof {
            seen = seen + 1;
        }
    }
    true
}

/// The position of the first line feed in the text, or its length where it
/// holds none.
pub open spec fn first_newline(text: Seq<char>) -> nat
    decreases text.len(),
{
    if text.len() == 0 || text[0] == '\n' {
        0
    } else {
        1 + first_newline(text.drop_first())
    }
}

/// A line as it stood before its line feed, without the carriage return that
/// may close it.
pub open spec fn without_carriage_return(line: Seq<char>) -> Seq<char> {
    if line.len() > 0 && line.last() == '\r' {
        line.drop_last()
    } else {
        line
    }
}

/// The lines of a text. A line ends at a line feed, or at a carriage return
/// directly followed by one; neither belongs to the line. What follows the
/// last line feed is a line only if it is not empty.
pub open spec fn lines_of(text: Seq<char>) -> Seq<Seq<char>>
    decreases text.len(),
{
    let end = first_newline(text);
    if text.len() == 0 {
        Seq::empty()
    } else if end >= text.len() {
        seq![text]
    } else {
        seq![without_carriage_return(text.take(end as int))] + lines_of(text.skip(end as int + 1))
    }
}

/// `String::push` appends one character to the end of a string.
pub assume_specification[ String::push ](s: &mut String, ch: char)
    ensures
        final(s)@ == old(s)@.push(ch),
;

/// The first line feed of a text stands where nothing before is one.
pub proof fn lemma_first_newline(text: Seq<char>, at: int)
    requires
        0 <= at <= text.len(),
        forall|j: int| 0 <= j < at ==> text[j] != '\n',
        at < text.len() ==> text[at] == '\n',
    ensures
        first_newline(text) == at,
    decreases at,
{
    if at > 0 {
        let rest = text.drop_first();
        assert forall|j: int| 0 <= j < at - 1 implies rest[j] != '\n' by {
            assert(rest[j] == text[j + 1]);
        }
        lemma_first_newline(rest, at - 1);
    }
}

/// Splits a text into its lines, each in a string of its own. It reads the
/// text once; a carriage return is kept in its line unless a line feed follows
/// it directly.
pub fn split_lines(content: &str) -> (lines: Vec<String>)
    ensures
        texts_of(lines@) == lines_of(content@),
{
    let ghost text = content@;
    let mut lines: Vec<String> = Vec::new();
    let mut current = String::new();
    // a carriage return is held back until it is known what follows it
    let mut held_back = false;
    let ghost mut start: int = 0;
    let ghost mut seen: int = 0;
    assert(text.skip(0) =~= text);
    assert(texts_of(lines@) + lines_of(text) =~= lines_of(text));
    assert(current@ =~= text.subrange(0, 0));
    for c in it: content.chars()
        invariant
            it.seq() == text,
            text == content@,
            seen == it.index(),
            0 <= start <= seen <= text.len(),
            forall|j: int| start <= j < seen ==> text[j] != '\n',
            lines_of(text) == texts_of(lines@) + lines_of(text.skip(start)),
            text.subrange(start, seen) == if held_back {
                current@.push('\r')
            } else {
                current@
            },
            !held_back ==> current@.len() == 0 || current@.last() != '\r',
    {
        let ghost so_far = text.subrange(start, seen);
        assert(text.subrange(start, seen + 1) =~= so_far.push(c));
        if c == '\n' {
            proof {
                let tail = text.skip(start);
                let at = seen - start;
                assert forall|j: int| 0 <= j < at implies tail[j] != '\n' by {
                    assert(tail[j] == text[start + j]);
                }
                assert(tail[at] == text[seen]);
                lemma_first_newline(tail, at);
                assert(tail.take(at) =~= so_far);
                assert(tail.skip(at + 1) =~= text.skip(seen + 1));
                assert(without_carriage_return(so_far) =~= current@);
                assert(lines_of(tail) == seq![current@] + lines_of(text.skip(seen + 1)));
            }
            let ghost before = texts_of(lines@);
            lines.push(current);
            current = String::new();
            held_back = false;
            proof {
                assert(texts_of(lines@) =~= before.push(lines@.last()@));
                assert(texts_of(lines@) + lines_of(text.skip(seen + 1)) =~= before + (seq![
                    lines@.last()@,
                ] + lines_of(text.skip(seen + 1))));
                start = seen + 1;
                assert(current@ =~= text.subrange(start, seen + 1));
            }
        } else {
            if held_back {
                current.push('\r');
            }
            if c == '\r' {
                held_back = true;
            } else {
                held_back = false;
                current.push(c);
            }
        }
        proof {
            seen = seen + 1;
        }
    }
    if held_back {
        current.push('\r');
    }
    proof {
        let tail = text.skip(start);
        assert(tail =~= text.subrange(start, seen));
        assert(tail == current@);
        assert forall|j: int| 0 <= j < tail.len() implies tail[j] != '\n' by {
            assert(tail[j] == text[start + j]);
        }
        lemma_first_newline(tail, tail.len() as int);
    }
    if !current.as_str().is_empty() {
        let ghost before = texts_of(lines@);
        lines.push(current);
        proof {
            assert(texts_of(lines@) =~= before.push(lines@.last()@));
            assert(texts_of(lines@) =~= before + seq![lines@.last()@]);
        }
    } else {
        assert(texts_of(lines@) + Seq::<Seq<char>>::empty() =~= texts_of(lines@));
    }
    lines
}

/// The texts of a list, as character sequences.
pub open spec fn texts_of(list: Seq<String>) -> Seq<Seq<char>> {
    Seq::new(list.len(), |i: int| list[i]@)
}

/// Whether one of the texts in `list` equals `item`.
pub open spec fn text_list_contains(list: Seq<String>, item: Seq<char>) -> bool {
    texts_of(list).contains(item)
}

/// Looks a text up in a list of texts.
pub fn list_contains(list: &Vec<String>, item: &str) -> (found: bool)
    ensures
        found == text_list_contains(list@, item@),
{
    let wanted = item.to_owned();
    let mut i: usize = 0;
    while i < list.len()
        invariant
            i <= list.len(),
            wanted@ == item@,
            forall|j: int| 0 <= j < i ==> (#[trigger] list@[j])@ != item@,
        decreases list.len() - i,
    {
        if list[i] == wanted {
            assert(texts_of(list@)[i as int] == item@);
            return true;
        }
        i += 1;
    }
    assert forall|j: int| 0 <= j < texts_of(list@).len() implies texts_of(list@)[j] != item@ by {
        assert(texts_of(list@)[j] == list@[j]@);
    }
    false
}

} // verus!
