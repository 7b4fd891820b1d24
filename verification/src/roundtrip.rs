//! What is written to a log can be read from it again.

use vstd::prelude::*;
use crate::log::{flag_of, flag_text, line_body, line_text, log_text, read_line, read_lines, read_text, well_formed, Entry, Fault, LogError};
use crate::numeral::{is_decimal, is_exponent, is_number, is_numeral, is_special, lemma_decimal_chars, spells, unsigned};
use crate::scan::{fields_from, fields_of, is_space, line_end, lines_from, lines_of, one_line, solid, word_end, word_start};

verus! {

/// Whether `s` is empty or ends with a line feed.
pub open spec fn closed_text(s: Seq<char>) -> bool {
    s.len() == 0 || s.last() == '\n'
}

/// The bodies of the lines that hold `entries`.
pub open spec fn bodies(entries: Seq<Entry>) -> Seq<Seq<char>> {
    Seq::new(entries.len(), |i: int| line_body(entries[i]))
}

/// The words for values that are no finite numbers can stand as fields.
pub proof fn lemma_special_solid(s: Seq<char>)
    requires
        is_special(s),
    ensures
        solid(s),
{
    reveal_strlit("inf");
    reveal_strlit("infinity");
    reveal_strlit("nan");
    let word = if spells(s, "inf"@) {
        "inf"@
    } else if spells(s, "infinity"@) {
        "infinity"@
    } else {
        "nan"@
    };
    assert(spells(s, word));
    assert forall|i: int| 0 <= i < word.len() implies 'a' <= #[trigger] word[i] <= 'z' by {
        if i == 0 {
        } else if i == 1 {
        } else if i == 2 {
        } else if i == 3 {
        } else if i == 4 {
        } else if i == 5 {
        } else if i == 6 {
        } else {
        }
    }
    assert forall|i: int| 0 <= i < s.len() implies !is_space(#[trigger] s[i]) by {
        assert('a' <= word[i] <= 'z');
    }
}

/// An exponent holds no white space.
pub proof fn lemma_exponent_solid(s: Seq<char>)
    requires
        is_exponent(s),
    ensures
        solid(s),
{
    assert forall|i: int| 0 <= i < s.len() implies !is_space(#[trigger] s[i]) by {
        if i >= 2 {
            assert(s.skip(2)[i - 2] == s[i]);
            assert(s.skip(1)[i - 1] == s[i]);
        } else if i == 1 {
            assert(s.skip(1)[0] == s[1]);
        }
    }
}

/// A number can stand as a field.
pub proof fn lemma_number_solid(s: Seq<char>)
    requires
        is_number(s),
    ensures
        solid(s),
{
    if is_decimal(s) {
        lemma_decimal_chars(s);
    } else {
        let k = choose|k: int|
            0 < k < s.len() && #[trigger] is_decimal(s.take(k)) && is_exponent(s.skip(k));
        lemma_decimal_chars(s.take(k));
        lemma_exponent_solid(s.skip(k));
        assert forall|i: int| 0 <= i < s.len() implies !is_space(#[trigger] s[i]) by {
            if i < k {
                assert(s.take(k)[i] == s[i]);
            } else {
                assert(s.skip(k)[i - k] == s[i]);
            }
        }
    }
}

/// A numeral can stand as a field: it is not empty and holds no white space.
pub proof fn lemma_numeral_solid(s: Seq<char>)
    requires
        is_numeral(s),
    ensures
        solid(s),
{
    let body = unsigned(s);
    if is_special(body) {
        lemma_special_solid(body);
    } else {
        lemma_number_solid(body);
    }
    if body != s {
        assert forall|i: int| 0 <= i < s.len() implies !is_space(#[trigger] s[i]) by {
            if i > 0 {
                assert(body[i - 1] == s[i]);
            }
        }
    }
}

/// The word for a flag can stand as a field and is read as that flag.
pub proof fn lemma_flag_solid(flag: bool)
    ensures
        solid(flag_text(flag)),
        flag_of(flag_text(flag)) == Some(flag),
{
    reveal_strlit("true");
    reveal_strlit("false");
    let word = flag_text(flag);
    assert forall|i: int| 0 <= i < word.len() implies !is_space(#[trigger] word[i]) by {
        if i == 0 {
        } else if i == 1 {
        } else if i == 2 {
        } else if i == 3 {
        } else {
        }
    }
    assert("true"@.len() != "false"@.len());
}

/// Where no white space stands from `from` up to `to`, and `to` ends `s` or
/// holds white space, a word that starts at `from` ends at `to`.
pub proof fn lemma_word_end_at(s: Seq<char>, from: int, to: int)
    requires
        0 <= from <= to <= s.len(),
        forall|k: int| from <= k < to ==> !is_space(#[trigger] s[k]),
        to < s.len() ==> is_space(s[to]),
    ensures
        word_end(s, from) == to,
    decreases to - from,
{
    if from < to {
        lemma_word_end_at(s, from + 1, to);
    }
}

/// Where only white space stands from `from` up to `to`, and `to` ends `s`
/// or holds none, the next word after `from` starts at `to`.
pub proof fn lemma_word_start_at(s: Seq<char>, from: int, to: int)
    requires
        0 <= from <= to <= s.len(),
        forall|k: int| from <= k < to ==> is_space(#[trigger] s[k]),
        to < s.len() ==> !is_space(s[to]),
    ensures
        word_start(s, from) == to,
    decreases to - from,
{
    if from < to {
        lemma_word_start_at(s, from + 1, to);
    }
}

/// Where no line feed stands from `from` up to `to`, and `to` ends `s` or
/// holds one, the line that starts at `from` ends at `to`.
pub proof fn lemma_line_end_at(s: Seq<char>, from: int, to: int)
    requires
        0 <= from <= to <= s.len(),
        forall|k: int| from <= k < to ==> #[trigger] s[k] != '\n',
        to < s.len() ==> s[to] == '\n',
    ensures
        line_end(s, from) == to,
    decreases to - from,
{
    if from < to {
        lemma_line_end_at(s, from + 1, to);
    }
}

/// Three fields with one blank between each two are read as those three
/// fields.
pub proof fn lemma_three_fields(x: Seq<char>, y: Seq<char>, z: Seq<char>)
    requires
        solid(x),
        solid(y),
        solid(z),
    ensures
        fields_of(x + seq![' '] + y + seq![' '] + z) == seq![x, y, z],
{
    let s = x + seq![' '] + y + seq![' '] + z;
    let a = x.len() as int;
    let b = a + 1 + y.len();
    let n = s.len() as int;
    assert(n == b + 1 + z.len());
    assert forall|k: int| 0 <= k < a implies !is_space(#[trigger] s[k]) by {
        assert(s[k] == x[k]);
    }
    assert(s[a] == ' ');
    assert forall|k: int| a + 1 <= k < b implies !is_space(#[trigger] s[k]) by {
        assert(s[k] == y[k - a - 1]);
    }
    assert(s[b] == ' ');
    assert forall|k: int| b + 1 <= k < n implies !is_space(#[trigger] s[k]) by {
        assert(s[k] == z[k - b - 1]);
    }
    assert(s[0] == x[0]);
    assert(s[a + 1] == y[0]);
    assert(s[b + 1] == z[0]);
    lemma_word_start_at(s, 0, 0);
    lemma_word_end_at(s, 0, a);
    lemma_word_start_at(s, a, a + 1);
    lemma_word_end_at(s, a + 1, b);
    lemma_word_start_at(s, b, b + 1);
    lemma_word_end_at(s, b + 1, n);
    lemma_word_start_at(s, n, n);
    assert(s.subrange(0, a) =~= x);
    assert(s.subrange(a + 1, b) =~= y);
    assert(s.subrange(b + 1, n) =~= z);
    assert(fields_from(s, n) =~= Seq::<Seq<char>>::empty());
    assert(fields_from(s, b) =~= seq![z]);
    assert(fields_from(s, a) =~= seq![y, z]);
    assert(fields_from(s, 0) =~= seq![x, y, z]);
}

/// The body of the line of a well-formed entry is read as that entry.
pub proof fn lemma_read_body(entry: Entry)
    requires
        well_formed(entry),
    ensures
        read_line(line_body(entry)) == Ok::<Entry, Fault>(entry),
        one_line(line_body(entry)),
{
    lemma_numeral_solid(entry.x);
    lemma_numeral_solid(entry.y);
    lemma_flag_solid(entry.outside);
    let word = flag_text(entry.outside);
    lemma_three_fields(entry.x, entry.y, word);
    let body = line_body(entry);
    let a = entry.x.len() as int;
    let b = a + 1 + entry.y.len();
    assert forall|i: int| 0 <= i < body.len() implies #[trigger] body[i] != '\n' by {
        if i < a {
            assert(body[i] == entry.x[i]);
        } else if i == a {
        } else if i < b {
            assert(body[i] == entry.y[i - a - 1]);
        } else if i == b {
        } else {
            assert(body[i] == word[i - b - 1]);
        }
    }
}

/// The lines of a text that continues after a line feed are the lines
/// before it, then the lines after it.
pub proof fn lemma_lines_join(head: Seq<char>, tail: Seq<char>, from: int)
    requires
        closed_text(head),
        0 <= from <= head.len(),
    ensures
        lines_from(head + tail, from) == lines_from(head, from) + lines_from(
            head + tail,
            head.len() as int,
        ),
    decreases head.len() - from,
{
    let whole = head + tail;
    if from < head.len() {
        crate::scan::lemma_line_end(head, from);
        let end = line_end(head, from);
        assert(end < head.len()) by {
            if end == head.len() {
                assert(head[head.len() - 1] != '\n');
            }
        }
        assert forall|k: int| from <= k < end implies #[trigger] whole[k] != '\n' by {
            assert(whole[k] == head[k]);
        }
        assert(whole[end] == head[end]);
        lemma_line_end_at(whole, from, end);
        assert(whole.subrange(from, end) =~= head.subrange(from, end));
        lemma_lines_join(head, tail, end + 1);
        assert(lines_from(whole, from) =~= seq![head.subrange(from, end)] + lines_from(whole, end + 1));
        assert(lines_from(head, from) =~= seq![head.subrange(from, end)] + lines_from(head, end + 1));
        assert(lines_from(whole, from) =~= lines_from(head, from) + lines_from(
            whole,
            head.len() as int,
        ));
    } else {
        assert(lines_from(head, from) =~= Seq::<Seq<char>>::empty());
        assert(lines_from(whole, from) =~= lines_from(head, from) + lines_from(whole, from));
    }
}

/// A line without a line feed, followed by one, is the one line of its
/// text, wherever that text begins.
pub proof fn lemma_last_line(head: Seq<char>, body: Seq<char>)
    requires
        one_line(body),
    ensures
        lines_from(head + (body + seq!['\n']), head.len() as int) == seq![body],
{
    let whole = head + (body + seq!['\n']);
    let from = head.len() as int;
    let end = from + body.len();
    assert forall|k: int| from <= k < end implies #[trigger] whole[k] != '\n' by {
        assert(whole[k] == body[k - from]);
    }
    assert(whole[end] == '\n');
    lemma_line_end_at(whole, from, end);
    assert(whole.subrange(from, end) =~= body);
    assert(lines_from(whole, end + 1) =~= Seq::<Seq<char>>::empty());
    assert(lines_from(whole, from) =~= seq![body]);
}

/// The lines of a written log are the bodies of its entries' lines, and the
/// log ends with a line feed unless it is empty.
pub proof fn lemma_written_lines(entries: Seq<Entry>)
    requires
        forall|i: int| 0 <= i < entries.len() ==> well_formed(#[trigger] entries[i]),
    ensures
        lines_of(log_text(entries)) == bodies(entries),
        closed_text(log_text(entries)),
    decreases entries.len(),
{
    if entries.len() == 0 {
        assert(lines_of(log_text(entries)) =~= bodies(entries));
    } else {
        let before = entries.drop_last();
        let last = entries.last();
        lemma_written_lines(before);
        lemma_read_body(last);
        let head = log_text(before);
        let body = line_body(last);
        lemma_lines_join(head, body + seq!['\n'], 0);
        lemma_last_line(head, body);
        assert(bodies(entries) =~= bodies(before).push(body));
        assert(lines_of(log_text(entries)) =~= bodies(before) + seq![body]);
    }
}

/// The bodies of the lines of well-formed entries are read as those
/// entries.
pub proof fn lemma_read_bodies(entries: Seq<Entry>)
    requires
        forall|i: int| 0 <= i < entries.len() ==> well_formed(#[trigger] entries[i]),
    ensures
        read_lines(bodies(entries)) == Ok::<Seq<Entry>, LogError>(entries),
    decreases entries.len(),
{
    if entries.len() == 0 {
        assert(entries =~= Seq::<Entry>::empty());
    } else {
        let before = entries.drop_last();
        lemma_read_bodies(before);
        lemma_read_body(entries.last());
        assert(bodies(entries).drop_last() =~= bodies(before));
        assert(bodies(entries).last() == line_body(entries.last()));
        assert(before.push(entries.last()) =~= entries);
    }
}

/// A log written from entries whose coordinates are numerals reads back as
/// the same entries, in the same order.
pub proof fn lemma_round_trip(entries: Seq<Entry>)
    requires
        forall|i: int| 0 <= i < entries.len() ==> well_formed(#[trigger] entries[i]),
    ensures
        read_text(log_text(entries)) == Ok::<Seq<Entry>, LogError>(entries),
{
    lemma_written_lines(entries);
    lemma_read_bodies(entries);
}

} // verus!
