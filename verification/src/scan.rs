//! Cutting text into lines and lines into fields.
//!
//! A text is a sequence of characters. Its lines are the pieces that end at a
//! line feed (the last one may lack it); the fields of a line are its maximal
//! runs of characters that are not white space.

use vstd::prelude::*;
use vstd::string::*;
use vstd::std_specs::iter::IteratorSpec;

verus! {

/// Whether `c` is white space: the characters that carry Unicode's
/// `White_Space` property.
pub open spec fn is_space(c: char) -> bool {
    let n = c as u32;
    ||| 0x09 <= n <= 0x0D
    ||| n == 0x20
    ||| n == 0x85
    ||| n == 0xA0
    ||| n == 0x1680
    ||| 0x2000 <= n <= 0x200A
    ||| n == 0x2028
    ||| n == 0x2029
    ||| n == 0x202F
    ||| n == 0x205F
    ||| n == 0x3000
}

/// The first position at or after `from` that holds a line feed, or the
/// length of `s` where none follows.
pub open spec fn line_end(s: Seq<char>, from: int) -> int
    decreases s.len() - from,
{
    if 0 <= from < s.len() && s[from] != '\n' {
        line_end(s, from + 1)
    } else {
        from
    }
}

/// The first position at or after `from` that holds no white space, or the
/// length of `s` where only white space follows.
pub open spec fn word_start(s: Seq<char>, from: int) -> int
    decreases s.len() - from,
{
    if 0 <= from < s.len() && is_space(s[from]) {
        word_start(s, from + 1)
    } else {
        from
    }
}

/// The first position at or after `from` that holds white space, or the
/// length of `s` where none follows.
pub open spec fn word_end(s: Seq<char>, from: int) -> int
    decreases s.len() - from,
{
    if 0 <= from < s.len() && !is_space(s[from]) {
        word_end(s, from + 1)
    } else {
        from
    }
}

/// The lines of `s` that begin at or after `from`, where `from` is the start
/// of a line.
pub open spec fn lines_from(s: Seq<char>, from: int) -> Seq<Seq<char>>
    decreases s.len() - from,
{
    if 0 <= from < s.len() {
        let end = line_end(s, from);
        proof {
            lemma_line_end(s, from);
        }
        if end < s.len() {
            seq![s.subrange(from, end)] + lines_from(s, end + 1)
        } else {
            seq![s.subrange(from, end)]
        }
    } else {
        Seq::empty()
    }
}

/// The lines of `s`. A line feed ends a line and belongs to none; what
/// follows the last line feed is a line of its own unless it is empty.
pub open spec fn lines_of(s: Seq<char>) -> Seq<Seq<char>> {
    lines_from(s, 0)
}

/// The fields of `s` that begin at or after `from`, where `from` is not
/// inside a field.
pub open spec fn fields_from(s: Seq<char>, from: int) -> Seq<Seq<char>>
    decreases s.len() - from,
{
    let start = word_start(s, from);
    if 0 <= from && start < s.len() {
        let end = word_end(s, start);
        proof {
            lemma_word_start(s, from);
            lemma_word_end(s, start);
        }
        seq![s.subrange(start, end)] + fields_from(s, end)
    } else {
        Seq::empty()
    }
}

/// The fields of `s`: its maximal runs of characters that are not white
/// space, from left to right.
pub open spec fn fields_of(s: Seq<char>) -> Seq<Seq<char>> {
    fields_from(s, 0)
}

/// Whether `s` can stand as a field: it is not empty and holds no white
/// space.
pub open spec fn solid(s: Seq<char>) -> bool {
    &&& s.len() > 0
    &&& forall|i: int| 0 <= i < s.len() ==> !is_space(#[trigger] s[i])
}

/// Whether `s` holds no line feed.
pub open spec fn one_line(s: Seq<char>) -> bool {
    forall|i: int| 0 <= i < s.len() ==> #[trigger] s[i] != '\n'
}

/// What each slice of `parts` holds.
pub open spec fn contents(parts: Seq<&[char]>) -> Seq<Seq<char>> {
    Seq::new(parts.len(), |i: int| parts[i]@)
}

/// `line_end` stops at the first line feed and passes none.
pub proof fn lemma_line_end(s: Seq<char>, from: int)
    requires
        0 <= from <= s.len(),
    ensures
        from <= line_end(s, from) <= s.len(),
        line_end(s, from) < s.len() ==> s[line_end(s, from)] == '\n',
        forall|k: int| from <= k < line_end(s, from) ==> s[k] != '\n',
    decreases s.len() - from,
{
    if from < s.len() && s[from] != '\n' {
        lemma_line_end(s, from + 1);
    }
}

/// `word_start` stops at the first character that is not white space and
/// passes only white space.
pub proof fn lemma_word_start(s: Seq<char>, from: int)
    requires
        0 <= from <= s.len(),
    ensures
        from <= word_start(s, from) <= s.len(),
        word_start(s, from) < s.len() ==> !is_space(s[word_start(s, from)]),
        forall|k: int| from <= k < word_start(s, from) ==> is_space(s[k]),
    decreases s.len() - from,
{
    if from < s.len() && is_space(s[from]) {
        lemma_word_start(s, from + 1);
    }
}

/// `word_end` stops at the first white space and passes none; it moves on
/// where it starts on a character that is not white space.
pub proof fn lemma_word_end(s: Seq<char>, from: int)
    requires
        0 <= from <= s.len(),
    ensures
        from <= word_end(s, from) <= s.len(),
        word_end(s, from) < s.len() ==> is_space(s[word_end(s, from)]),
        forall|k: int| from <= k < word_end(s, from) ==> !is_space(s[k]),
        from < s.len() && !is_space(s[from]) ==> from < word_end(s, from),
    decreases s.len() - from,
{
    if from < s.len() && !is_space(s[from]) {
        lemma_word_end(s, from + 1);
    }
}

/// No line holds a line feed.
pub proof fn lemma_lines_hold_no_feed(s: Seq<char>, from: int)
    requires
        0 <= from <= s.len(),
    ensures
        forall|i: int|
            0 <= i < lines_from(s, from).len() ==> one_line(#[trigger] lines_from(s, from)[i]),
    decreases s.len() - from,
{
    if from < s.len() {
        lemma_line_end(s, from);
        let end = line_end(s, from);
        let piece = s.subrange(from, end);
        assert(one_line(piece)) by {
            assert forall|k: int| 0 <= k < piece.len() implies #[trigger] piece[k] != '\n' by {
                assert(piece[k] == s[from + k]);
            }
        }
        if end < s.len() {
            lemma_lines_hold_no_feed(s, end + 1);
            let rest = lines_from(s, end + 1);
            assert forall|i: int| 0 <= i < lines_from(s, from).len() implies one_line(
                #[trigger] lines_from(s, from)[i],
            ) by {
                if i > 0 {
                    assert(lines_from(s, from)[i] == rest[i - 1]);
                }
            }
        }
    }
}

/// Every field holds at least one character and no white space.
pub proof fn lemma_fields_are_solid(s: Seq<char>, from: int)
    requires
        0 <= from <= s.len(),
    ensures
        forall|i: int|
            0 <= i < fields_from(s, from).len() ==> solid(#[trigger] fields_from(s, from)[i]),
    decreases s.len() - from,
{
    lemma_word_start(s, from);
    let start = word_start(s, from);
    if start < s.len() {
        lemma_word_end(s, start);
        let end = word_end(s, start);
        let piece = s.subrange(start, end);
        assert(solid(piece)) by {
            assert forall|k: int| 0 <= k < piece.len() implies !is_space(#[trigger] piece[k]) by {
                assert(piece[k] == s[start + k]);
            }
        }
        lemma_fields_are_solid(s, end);
        let rest = fields_from(s, end);
        assert forall|i: int| 0 <= i < fields_from(s, from).len() implies solid(
            #[trigger] fields_from(s, from)[i],
        ) by {
            if i > 0 {
                assert(fields_from(s, from)[i] == rest[i - 1]);
            }
        }
    }
}

/// The characters of `text`, in order.
pub fn chars_of(text: &str) -> (chars: Vec<char>)
    ensures
        chars@ == text@,
{
    let mut chars: Vec<char> = Vec::new();
    for c in it: text.chars()
        invariant
            chars@ == it.seq().take(it.index() as int),
            it.seq() == text@,
    {
        chars.push(c);
    }
    chars
}

/// Whether `c` is white space.
pub fn char_is_space(c: char) -> (yes: bool)
    ensures
        yes == is_space(c),
{
    let n: u32 = c as u32;
    (0x09 <= n && n <= 0x0D) || n == 0x20 || n == 0x85 || n == 0xA0 || n == 0x1680 || (0x2000 <= n
        && n <= 0x200A) || n == 0x2028 || n == 0x2029 || n == 0x202F || n == 0x205F || n == 0x3000
}

/// The lines of `text`, each a piece of it.
pub fn split_lines<'a>(text: &'a [char]) -> (lines: Vec<&'a [char]>)
    ensures
        contents(lines@) == lines_of(text@),
{
    let mut lines: Vec<&'a [char]> = Vec::new();
    let mut from: usize = 0;
    while from < text.len()
        invariant
            from <= text.len(),
            contents(lines@) + lines_from(text@, from as int) == lines_of(text@),
        decreases text.len() - from,
    {
        let mut end: usize = from;
        while end < text.len() && text[end] != '\n'
            invariant
                from <= end <= text.len(),
                line_end(text@, end as int) == line_end(text@, from as int),
            decreases text.len() - end,
        {
            end = end + 1;
        }
        let line = vstd::slice::slice_subrange(text, from, end);
        proof {
            let before = contents(lines@);
            let piece = text@.subrange(from as int, end as int);
            assert(contents(lines@.push(line)) =~= before + seq![piece]);
            if end < text.len() {
                assert((before + seq![piece]) + lines_from(text@, end as int + 1) =~= before + (
                seq![piece] + lines_from(text@, end as int + 1)));
            }
        }
        lines.push(line);
        if end < text.len() {
            from = end + 1;
        } else {
            return lines;
        }
    }
    proof {
        assert(contents(lines@) + Seq::<Seq<char>>::empty() =~= contents(lines@));
    }
    lines
}

/// The fields of `line`, each a piece of it.
pub fn split_fields<'a>(line: &'a [char]) -> (fields: Vec<&'a [char]>)
    ensures
        contents(fields@) == fields_of(line@),
{
    let mut fields: Vec<&'a [char]> = Vec::new();
    let mut from: usize = 0;
    loop
        invariant
            from <= line.len(),
            contents(fields@) + fields_from(line@, from as int) == fields_of(line@),
        decreases line.len() - from,
    {
        let mut start: usize = from;
        while start < line.len() && char_is_space(line[start])
            invariant
                from <= start <= line.len(),
                word_start(line@, start as int) == word_start(line@, from as int),
            decreases line.len() - start,
        {
            start = start + 1;
        }
        if start >= line.len() {
            proof {
                assert(contents(fields@) + Seq::<Seq<char>>::empty() =~= contents(fields@));
            }
            return fields;
        }
        let mut end: usize = start + 1;
        while end < line.len() && !char_is_space(line[end])
            invariant
                start < end <= line.len(),
                word_end(line@, end as int) == word_end(line@, start as int),
            decreases line.len() - end,
        {
            end = end + 1;
        }
        let field = vstd::slice::slice_subrange(line, start, end);
        proof {
            let before = contents(fields@);
            let piece = line@.subrange(start as int, end as int);
            assert(contents(fields@.push(field)) =~= before + seq![piece]);
            assert((before + seq![piece]) + fields_from(line@, end as int) =~= before + (seq![piece]
                + fields_from(line@, end as int)));
        }
        fields.push(field);
        from = end;
    }
}

} // verus!
