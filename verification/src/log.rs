//! The text log of a walk: one line for each recorded position.
//!
//! A line holds three fields with white space between them: the numerals of
//! the two coordinates and the word `true` or `false`, which says whether the
//! position lay outside the square. Reading stops at the first line that is
//! not of this form and names it.

use vstd::prelude::*;
use vstd::string::*;
use crate::numeral::{is_numeral, scan_numeral};
use crate::roundtrip::lemma_round_trip;
use crate::scan::{chars_of, contents, fields_of, lines_of, split_fields, split_lines};

verus! {

/// One line of a log as a value: the two numerals as they are written, and
/// the flag.
pub ghost struct Entry {
    pub x: Seq<char>,
    pub y: Seq<char>,
    pub outside: bool,
}

/// What is wrong with a line.
#[derive(Copy, Clone, Debug, PartialEq, Eq, Structural)]
pub enum Fault {
    /// The line does not hold exactly three fields.
    FieldCount,
    /// The first field is no numeral.
    FirstNumber,
    /// The second field is no numeral.
    SecondNumber,
    /// The third field is neither `true` nor `false`.
    Flag,
}

/// Why a log could not be read: the first line at fault, counted from 1,
/// and what is wrong with it.
#[derive(Copy, Clone, Debug, PartialEq, Eq, Structural)]
pub struct LogError {
    pub line: usize,
    pub fault: Fault,
}

/// One line of a log, held as text: a position and whether it lay outside.
#[derive(Debug, PartialEq, Eq)]
pub struct Record {
    x: String,
    y: String,
    outside: bool,
}

/// The flag that the field `s` spells, if it spells one.
pub open spec fn flag_of(s: Seq<char>) -> Option<bool> {
    if s == "true"@ {
        Some(true)
    } else if s == "false"@ {
        Some(false)
    } else {
        None
    }
}

/// The word that stands for `flag`.
pub open spec fn flag_text(flag: bool) -> Seq<char> {
    if flag {
        "true"@
    } else {
        "false"@
    }
}

/// Whether both coordinates of `entry` are numerals.
pub open spec fn well_formed(entry: Entry) -> bool {
    is_numeral(entry.x) && is_numeral(entry.y)
}

/// What `line` says: its entry, or the first thing wrong with it.
pub open spec fn read_line(line: Seq<char>) -> Result<Entry, Fault> {
    let fields = fields_of(line);
    if fields.len() != 3 {
        Err(Fault::FieldCount)
    } else if !is_numeral(fields[0]) {
        Err(Fault::FirstNumber)
    } else if !is_numeral(fields[1]) {
        Err(Fault::SecondNumber)
    } else {
        match flag_of(fields[2]) {
            Some(outside) => Ok(Entry { x: fields[0], y: fields[1], outside }),
            None => Err(Fault::Flag),
        }
    }
}

/// What `lines` say together: the entry of each, in order, unless one is at
/// fault; then the first such line, counted from 1, and its fault.
pub open spec fn read_lines(lines: Seq<Seq<char>>) -> Result<Seq<Entry>, LogError>
    decreases lines.len(),
{
    if lines.len() == 0 {
        Ok(Seq::empty())
    } else {
        match read_lines(lines.drop_last()) {
            Err(error) => Err(error),
            Ok(entries) => match read_line(lines.last()) {
                Ok(entry) => Ok(entries.push(entry)),
                Err(fault) => Err(LogError { line: lines.len() as usize, fault }),
            },
        }
    }
}

/// What the log `text` says.
pub open spec fn read_text(text: Seq<char>) -> Result<Seq<Entry>, LogError> {
    read_lines(lines_of(text))
}

/// The three fields of `entry` with one blank between each two.
pub open spec fn line_body(entry: Entry) -> Seq<char> {
    entry.x + seq![' '] + entry.y + seq![' '] + flag_text(entry.outside)
}

/// The line that holds `entry`, with the line feed that ends it.
pub open spec fn line_text(entry: Entry) -> Seq<char> {
    line_body(entry) + seq!['\n']
}

/// The log that holds `entries`, one line each, in order.
pub open spec fn log_text(entries: Seq<Entry>) -> Seq<char>
    decreases entries.len(),
{
    if entries.len() == 0 {
        Seq::empty()
    } else {
        log_text(entries.drop_last()) + line_text(entries.last())
    }
}

/// The entries that `records` hold.
pub open spec fn entries_of(records: Seq<Record>) -> Seq<Entry> {
    Seq::new(records.len(), |i: int| records[i]@)
}

/// What a result of reading holds, its records taken as entries.
pub open spec fn outcome_of(result: Result<Vec<Record>, LogError>) -> Result<Seq<Entry>, LogError> {
    match result {
        Ok(records) => Ok(entries_of(records@)),
        Err(error) => Err(error),
    }
}

impl View for Record {
    type V = Entry;

    closed spec fn view(&self) -> Entry {
        Entry { x: self.x@, y: self.y@, outside: self.outside }
    }
}

/// `String::push` appends one character to the string and changes nothing
/// else of it.
pub assume_specification[ String::push ](s: &mut String, c: char)
    ensures
        final(s)@ == old(s)@.push(c),
;

/// A string that holds `chars`.
pub fn string_of(chars: &[char]) -> (s: String)
    ensures
        s@ == chars@,
{
    let mut s = String::new();
    let mut i: usize = 0;
    while i < chars.len()
        invariant
            i <= chars.len(),
            s@ == chars@.take(i as int),
        decreases chars.len() - i,
    {
        s.push(chars[i]);
        proof {
            assert(chars@.take(i as int).push(chars@[i as int]) =~= chars@.take(i as int + 1));
        }
        i = i + 1;
    }
    proof {
        assert(chars@.take(chars@.len() as int) =~= chars@);
    }
    s
}

/// Whether `s` holds exactly the characters of `word`.
pub fn scan_exact(s: &[char], word: &str) -> (yes: bool)
    ensures
        yes == (s@ == word@),
{
    if s.len() != word.unicode_len() {
        return false;
    }
    let mut i: usize = 0;
    while i < s.len()
        invariant
            i <= s.len(),
            s@.len() == word@.len(),
            forall|j: int| 0 <= j < i ==> s@[j] == word@[j],
        decreases s.len() - i,
    {
        if s[i] != word.get_char(i) {
            return false;
        }
        i = i + 1;
    }
    proof {
        assert(s@ =~= word@);
    }
    true
}

/// The flag that `field` spells, if it spells one.
pub fn parse_flag(field: &[char]) -> (flag: Option<bool>)
    ensures
        flag == flag_of(field@),
{
    if scan_exact(field, "true") {
        Some(true)
    } else if scan_exact(field, "false") {
        Some(false)
    } else {
        None
    }
}

impl Clone for Record {
    fn clone(&self) -> (copy: Record)
        ensures
            copy@ == self@,
    {
        proof {
            use_type_invariant(self);
        }
        Record { x: self.x.clone(), y: self.y.clone(), outside: self.outside }
    }
}

impl Record {
    #[verifier::type_invariant]
    closed spec fn numerals(&self) -> bool {
        is_numeral(self.x@) && is_numeral(self.y@)
    }

    /// The record of a position whose coordinates are written `x` and `y`;
    /// `None` unless both are numerals.
    pub fn new(x: &str, y: &str, outside: bool) -> (made: Option<Record>)
        ensures
            made is Some <==> is_numeral(x@) && is_numeral(y@),
            made is Some ==> made->0@ == (Entry { x: x@, y: y@, outside }),
    {
        let xs = chars_of(x);
        let ys = chars_of(y);
        if scan_numeral(xs.as_slice()) && scan_numeral(ys.as_slice()) {
            Some(Record { x: String::from_str(x), y: String::from_str(y), outside })
        } else {
            None
        }
    }

    /// The first coordinate, as it is written.
    pub fn x(&self) -> (x: &str)
        ensures
            x@ == self@.x,
    {
        self.x.as_str()
    }

    /// The second coordinate, as it is written.
    pub fn y(&self) -> (y: &str)
        ensures
            y@ == self@.y,
    {
        self.y.as_str()
    }

    /// Whether the position lay outside the square.
    pub fn outside(&self) -> (outside: bool)
        ensures
            outside == self@.outside,
    {
        self.outside
    }
}

/// The record that `line` holds, or the first thing wrong with it.
pub fn parse_line(line: &[char]) -> (result: Result<Record, Fault>)
    ensures
        match result {
            Ok(record) => read_line(line@) == Ok::<Entry, Fault>(record@),
            Err(fault) => read_line(line@) == Err::<Entry, Fault>(fault),
        },
{
    let fields = split_fields(line);
    proof {
        assert(fields@.len() == fields_of(line@).len());
        assert forall|i: int| 0 <= i < fields@.len() implies fields@[i]@ == fields_of(line@)[i] by {
            assert(contents(fields@)[i] == fields@[i]@);
        }
    }
    if fields.len() != 3 {
        return Err(Fault::FieldCount);
    }
    if !scan_numeral(fields[0]) {
        return Err(Fault::FirstNumber);
    }
    if !scan_numeral(fields[1]) {
        return Err(Fault::SecondNumber);
    }
    match parse_flag(fields[2]) {
        Some(outside) => Ok(Record { x: string_of(fields[0]), y: string_of(fields[1]), outside }),
        None => Err(Fault::Flag),
    }
}

/// A fault among the first lines is the fault of the whole.
pub proof fn lemma_fault_stays(lines: Seq<Seq<char>>, upto: int)
    requires
        0 <= upto <= lines.len(),
        read_lines(lines.take(upto)) is Err,
    ensures
        read_lines(lines) == read_lines(lines.take(upto)),
    decreases lines.len() - upto,
{
    if upto == lines.len() {
        assert(lines.take(upto) =~= lines);
    } else {
        assert(lines.take(upto + 1).drop_last() =~= lines.take(upto));
        lemma_fault_stays(lines, upto + 1);
    }
}

/// The records that the log `text` holds, in order, or the first line at
/// fault.
pub fn parse_log(text: &str) -> (result: Result<Vec<Record>, LogError>)
    ensures
        outcome_of(result) == read_text(text@),
{
    let chars = chars_of(text);
    let lines = split_lines(chars.as_slice());
    let ghost all = lines_of(text@);
    let mut records: Vec<Record> = Vec::new();
    let mut i: usize = 0;
    proof {
        assert(entries_of(records@) =~= Seq::<Entry>::empty());
        assert(all.take(0).len() == 0);
    }
    while i < lines.len()
        invariant
            i <= lines.len(),
            all == lines_of(text@),
            contents(lines@) == all,
            read_lines(all.take(i as int)) == Ok::<Seq<Entry>, LogError>(entries_of(records@)),
        decreases lines.len() - i,
    {
        proof {
            assert(all.take(i as int + 1).drop_last() =~= all.take(i as int));
            assert(contents(lines@)[i as int] == lines@[i as int]@);
            assert(all.take(i as int + 1).last() == lines@[i as int]@);
            assert(all.take(i as int + 1).len() == i + 1);
        }
        match parse_line(lines[i]) {
            Ok(record) => {
                proof {
                    assert(entries_of(records@.push(record)) =~= entries_of(records@).push(record@));
                }
                records.push(record);
            },
            Err(fault) => {
                proof {
                    lemma_fault_stays(all, i as int + 1);
                }
                return Err(LogError { line: i + 1, fault });
            },
        }
        i = i + 1;
    }
    proof {
        assert(all.take(i as int) =~= all);
    }
    Ok(records)
}

/// The line that holds `record`, with the line feed that ends it.
pub fn render_line(record: &Record) -> (text: String)
    ensures
        text@ == line_text(record@),
{
    proof {
        reveal_strlit(" ");
        reveal_strlit("\n");
        assert(" "@ =~= seq![' ']);
        assert("\n"@ =~= seq!['\n']);
    }
    let mut text = String::from_str(record.x());
    text.append(" ");
    text.append(record.y());
    text.append(" ");
    if record.outside() {
        text.append("true");
    } else {
        text.append("false");
    }
    text.append("\n");
    text
}

/// The log that holds `records`, one line each, in order. Read again, it
/// gives the same records.
pub fn render_log(records: &Vec<Record>) -> (text: String)
    ensures
        text@ == log_text(entries_of(records@)),
        read_text(text@) == Ok::<Seq<Entry>, LogError>(entries_of(records@)),
{
    let ghost all = entries_of(records@);
    let mut text = String::new();
    let mut i: usize = 0;
    while i < records.len()
        invariant
            i <= records.len(),
            all == entries_of(records@),
            text@ == log_text(all.take(i as int)),
            forall|j: int| 0 <= j < i ==> well_formed(#[trigger] all[j]),
        decreases records.len() - i,
    {
        let record = &records[i];
        proof {
            use_type_invariant(record);
            assert(all.take(i as int + 1).drop_last() =~= all.take(i as int));
        }
        let line = render_line(record);
        text.append(line.as_str());
        i = i + 1;
    }
    proof {
        assert(all.take(i as int) =~= all);
        lemma_round_trip(all);
    }
    text
}

/// The character for the digit `d`.
pub open spec fn digit_char(d: int) -> char
    recommends
        0 <= d <= 9,
{
    ('0' as int + d) as char
}

/// The number `n` written in decimal digits, without leading zeros.
pub open spec fn decimal(n: nat) -> Seq<char>
    decreases n,
{
    if n < 10 {
        seq![digit_char(n as int)]
    } else {
        decimal(n / 10).push(digit_char((n % 10) as int))
    }
}

impl Fault {
    /// What is wrong, in words.
    pub open spec fn text(self) -> Seq<char> {
        match self {
            Fault::FieldCount => "expected three fields"@,
            Fault::FirstNumber => "the first field is not a number"@,
            Fault::SecondNumber => "the second field is not a number"@,
            Fault::Flag => "the third field is neither true nor false"@,
        }
    }

    /// What is wrong, in words.
    pub fn describe(&self) -> (words: String)
        ensures
            words@ == self.text(),
    {
        match self {
            Fault::FieldCount => String::from_str("expected three fields"),
            Fault::FirstNumber => String::from_str("the first field is not a number"),
            Fault::SecondNumber => String::from_str("the second field is not a number"),
            Fault::Flag => String::from_str("the third field is neither true nor false"),
        }
    }
}

impl LogError {
    /// Which line is at fault and what is wrong with it, in words.
    pub open spec fn text(self) -> Seq<char> {
        "line "@ + decimal(self.line as nat) + ": "@ + self.fault.text()
    }

    /// Which line is at fault and what is wrong with it, in words.
    pub fn describe(&self) -> (words: String)
        ensures
            words@ == self.text(),
    {
        let mut words = String::from_str("line ");
        push_decimal(&mut words, self.line);
        words.append(": ");
        let what = self.fault.describe();
        words.append(what.as_str());
        words
    }
}

/// Appends to `text` the number `n` in decimal digits.
pub fn push_decimal(text: &mut String, n: usize)
    ensures
        final(text)@ == old(text)@ + decimal(n as nat),
    decreases n,
{
    if n >= 10 {
        push_decimal(text, n / 10);
    }
    let d: u8 = (n % 10) as u8;
    let c: char = (48u8 + d) as char;
    proof {
        assert(c == digit_char((n % 10) as int));
        if n >= 10 {
            assert(old(text)@ + decimal((n / 10) as nat).push(c) =~= (old(text)@ + decimal(
                (n / 10) as nat,
            )).push(c));
        } else {
            assert(old(text)@ + seq![c] =~= old(text)@.push(c));
        }
    }
    text.push(c);
}

} // verus!
