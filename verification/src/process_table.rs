//! Reading the table of running processes that the system's process
//! lister prints: lines, fields between white space, and one record for
//! each full line.

use vstd::prelude::*;
use vstd::utf8::{encode_utf8, is_char_boundary};
use crate::component_service::JoltOutput;
use crate::pattern::chars_of;
use crate::text::texts;

verus! {

/// `text` cut at each occurrence of `sep`: the pieces between them, empty
/// ones too. A text without `sep` is a single piece.
pub open spec fn split_on(text: Seq<char>, sep: char) -> Seq<Seq<char>>
    decreases text.len(),
{
    if text.len() == 0 {
        seq![Seq::empty()]
    } else {
        let before = split_on(text.drop_last(), sep);
        if text.last() == sep {
            before.push(Seq::empty())
        } else {
            before.drop_last().push(before.last().push(text.last()))
        }
    }
}

/// A text is split into at least one piece.
pub proof fn lemma_split_on_nonempty(text: Seq<char>, sep: char)
    ensures
        split_on(text, sep).len() >= 1,
    decreases text.len(),
{
    if text.len() > 0 {
        lemma_split_on_nonempty(text.drop_last(), sep);
    }
}

/// The pieces `pieces` put together again, with `sep` between each two.
pub open spec fn joined(pieces: Seq<Seq<char>>, sep: char) -> Seq<char>
    decreases pieces.len(),
{
    if pieces.len() == 0 {
        Seq::empty()
    } else if pieces.len() == 1 {
        pieces[0]
    } else {
        joined(pieces.drop_last(), sep).push(sep) + pieces.last()
    }
}

/// Splitting loses nothing and finds every separator: no piece holds one,
/// and the pieces joined by the separator are the text again.
pub proof fn lemma_split_on_exact(text: Seq<char>, sep: char)
    ensures
        forall|k: int, j: int|
            0 <= k < split_on(text, sep).len() && 0 <= j < split_on(text, sep)[k].len()
                ==> split_on(text, sep)[k][j] != sep,
        joined(split_on(text, sep), sep) == text,
    decreases text.len(),
{
    let pieces = split_on(text, sep);
    if text.len() > 0 {
        let head = text.drop_last();
        let before = split_on(head, sep);
        lemma_split_on_exact(head, sep);
        lemma_split_on_nonempty(head, sep);
        assert(text == head.push(text.last()));
        if text.last() == sep {
            assert(pieces.drop_last() == before);
            assert(joined(before, sep).push(sep) + Seq::<char>::empty() == head.push(sep));
        } else {
            let grown = before.last().push(text.last());
            assert(pieces.last() == grown);
            if before.len() == 1 {
                assert(before[0] == joined(before, sep));
                assert(pieces[0] == grown);
            } else {
                assert(pieces.drop_last() == before.drop_last());
                assert(joined(before.drop_last(), sep).push(sep) + grown == (joined(
                    before.drop_last(),
                    sep,
                ).push(sep) + before.last()).push(text.last()));
            }
            assert forall|k: int, j: int|
                0 <= k < pieces.len() && 0 <= j < pieces[k].len() implies pieces[k][j] != sep by {
                if k < pieces.len() - 1 {
                    assert(pieces[k] == before[k]);
                } else if j < before.last().len() {
                    assert(pieces[k][j] == before[before.len() - 1][j]);
                }
            }
        }
    } else {
        assert(pieces[0] == Seq::<char>::empty());
    }
}

/// The lines of `text`: what stands between its line feeds.
pub fn lines_of(text: &str) -> (lines: Vec<String>)
    ensures
        texts(lines@) == split_on(text@, '\n'),
{
    let chars = chars_of(text);
    let n = chars.len();
    let mut lines: Vec<String> = Vec::new();
    let mut start: usize = 0;
    let mut i: usize = 0;
    proof {
        assert(text@.take(0) == Seq::<char>::empty());
        assert(text@.subrange(0, 0) == Seq::<char>::empty());
        assert(Seq::<Seq<char>>::empty().push(Seq::<char>::empty()) == seq![Seq::<char>::empty()]);
    }
    while i < n
        invariant
            chars@ == text@,
            n == chars.len(),
            start <= i <= n,
            split_on(text@.take(i as int), '\n') == texts(lines@).push(
                text@.subrange(start as int, i as int),
            ),
        decreases n - i,
    {
        let ghost done = texts(lines@);
        let ghost piece = text@.subrange(start as int, i as int);
        proof {
            assert(text@.take(i + 1).drop_last() == text@.take(i as int));
            assert(text@.take(i + 1).last() == text@[i as int]);
            assert(done.push(piece).drop_last() == done);
        }
        if chars[i] == '\n' {
            lines.push(text.substring_char(start, i).to_owned());
            start = i + 1;
            proof {
                assert(texts(lines@) == done.push(piece));
                assert(text@.subrange(i + 1, i + 1) == Seq::<char>::empty());
            }
        } else {
            proof {
                assert(text@.subrange(start as int, i + 1) == piece.push(text@[i as int]));
            }
        }
        i = i + 1;
    }
    let ghost done = texts(lines@);
    lines.push(text.substring_char(start, n).to_owned());
    proof {
        assert(text@.take(n as int) == text@);
        assert(texts(lines@) == done.push(text@.subrange(start as int, n as int)));
    }
    lines
}

/// Whether `c` is white space, as the standard library sorts characters.
pub uninterp spec fn is_whitespace(c: char) -> bool;

/// `char::is_whitespace`. The result depends on the character alone; it
/// is known here only by its name, `is_whitespace`.
#[verifier::external_body]
fn char_is_whitespace(c: char) -> (space: bool)
    ensures
        space == is_whitespace(c),
{
    c.is_whitespace()
}

/// The fields of `text` where `space` says of each place whether the
/// character there separates fields: the longest runs of characters that
/// do not, from left to right.
pub open spec fn fields_by(text: Seq<char>, space: Seq<bool>) -> Seq<Seq<char>>
    recommends
        space.len() == text.len(),
    decreases text.len(),
{
    if text.len() == 0 {
        Seq::empty()
    } else if space[text.len() - 1] {
        fields_by(text.drop_last(), space.drop_last())
    } else if text.len() >= 2 && !space[text.len() - 2] {
        let before = fields_by(text.drop_last(), space.drop_last());
        before.drop_last().push(before.last().push(text.last()))
    } else {
        fields_by(text.drop_last(), space.drop_last()).push(seq![text.last()])
    }
}

/// For each place of `text`, whether the character there is white space.
pub open spec fn spaces_of(text: Seq<char>) -> Seq<bool> {
    Seq::new(text.len(), |k: int| is_whitespace(text[k]))
}

/// The fields of `text`: its longest runs of characters that are not white
/// space, from left to right.
pub open spec fn fields_of(text: Seq<char>) -> Seq<Seq<char>> {
    fields_by(text, spaces_of(text))
}

/// No field is empty, and no field holds white space.
pub proof fn lemma_fields_hold_no_space(text: Seq<char>)
    ensures
        forall|k: int| 0 <= k < fields_of(text).len() ==> #[trigger] fields_of(text)[k].len() > 0,
        forall|k: int, j: int|
            0 <= k < fields_of(text).len() && 0 <= j < fields_of(text)[k].len() ==> !is_whitespace(
                fields_of(text)[k][j],
            ),
        text.len() > 0 && !is_whitespace(text.last()) ==> fields_of(text).len() > 0,
    decreases text.len(),
{
    let fields = fields_of(text);
    if text.len() > 0 {
        let head = text.drop_last();
        let before = fields_of(head);
        lemma_fields_hold_no_space(head);
        assert(spaces_of(text).drop_last() == spaces_of(head));
        if !is_whitespace(text.last()) {
            if text.len() >= 2 && !is_whitespace(text[text.len() - 2]) {
                assert(head.last() == text[text.len() - 2]);
                let grown = before.last().push(text.last());
                assert(fields == before.drop_last().push(grown));
                assert forall|k: int, j: int|
                    0 <= k < fields.len() && 0 <= j < fields[k].len() implies !is_whitespace(
                    fields[k][j],
                ) by {
                    if k < fields.len() - 1 {
                        assert(fields[k] == before[k]);
                    } else if j < before.last().len() {
                        assert(fields[k][j] == before[before.len() - 1][j]);
                    }
                }
                assert forall|k: int| 0 <= k < fields.len() implies #[trigger] fields[k].len()
                    > 0 by {
                    if k < fields.len() - 1 {
                        assert(fields[k] == before[k]);
                    }
                }
            } else {
                assert(fields == before.push(seq![text.last()]));
                assert forall|k: int, j: int|
                    0 <= k < fields.len() && 0 <= j < fields[k].len() implies !is_whitespace(
                    fields[k][j],
                ) by {
                    if k < fields.len() - 1 {
                        assert(fields[k] == before[k]);
                    }
                }
                assert forall|k: int| 0 <= k < fields.len() implies #[trigger] fields[k].len()
                    > 0 by {
                    if k < fields.len() - 1 {
                        assert(fields[k] == before[k]);
                    }
                }
            }
        }
    }
}

/// The fields of `line`, given for each of its characters whether it
/// separates fields.
pub fn split_fields_by(line: &str, space: &Vec<bool>) -> (fields: Vec<String>)
    requires
        space@.len() == line@.len(),
    ensures
        texts(fields@) == fields_by(line@, space@),
{
    let n = space.len();
    let mut fields: Vec<String> = Vec::new();
    let mut start: usize = 0;
    let mut inside = false;
    let mut i: usize = 0;
    proof {
        assert(line@.take(0) == Seq::<char>::empty());
    }
    while i < n
        invariant
            n == space.len(),
            n == line@.len(),
            i <= n,
            inside ==> start < i,
            inside == (i > 0 && !space@[i - 1]),
            inside ==> fields_by(line@.take(i as int), space@.take(i as int)) == texts(
                fields@,
            ).push(line@.subrange(start as int, i as int)),
            !inside ==> fields_by(line@.take(i as int), space@.take(i as int)) == texts(fields@),
        decreases n - i,
    {
        let ghost done = texts(fields@);
        let ghost piece = line@.subrange(start as int, i as int);
        let ghost next = line@.take(i + 1);
        let ghost marks = space@.take(i + 1);
        proof {
            assert(next.drop_last() == line@.take(i as int));
            assert(marks.drop_last() == space@.take(i as int));
            assert(next.last() == line@[i as int]);
            assert(marks[next.len() - 1] == space@[i as int]);
            if i > 0 {
                assert(marks[next.len() - 2] == space@[i - 1]);
            }
        }
        if space[i] {
            if inside {
                fields.push(line.substring_char(start, i).to_owned());
                proof {
                    assert(texts(fields@) == done.push(piece));
                }
            }
            inside = false;
        } else {
            if inside {
                proof {
                    assert(done.push(piece).drop_last() == done);
                    assert(line@.subrange(start as int, i + 1) == piece.push(line@[i as int]));
                }
            } else {
                start = i;
                inside = true;
                proof {
                    assert(line@.subrange(i as int, i + 1) == seq![line@[i as int]]);
                }
            }
        }
        i = i + 1;
    }
    proof {
        assert(line@.take(n as int) == line@);
        assert(space@.take(n as int) == space@);
    }
    if inside {
        let ghost done = texts(fields@);
        fields.push(line.substring_char(start, n).to_owned());
        proof {
            assert(texts(fields@) == done.push(line@.subrange(start as int, n as int)));
        }
    }
    fields
}

/// The fields of `line`: what stands between its stretches of white space.
pub fn split_fields(line: &str) -> (fields: Vec<String>)
    ensures
        texts(fields@) == fields_of(line@),
{
    let chars = chars_of(line);
    let mut space: Vec<bool> = Vec::new();
    let mut i: usize = 0;
    while i < chars.len()
        invariant
            chars@ == line@,
            i <= chars.len(),
            space@.len() == i,
            forall|k: int| 0 <= k < i ==> space@[k] == is_whitespace(line@[k]),
        decreases chars.len() - i,
    {
        space.push(char_is_whitespace(chars[i]));
        i = i + 1;
    }
    assert(space@ == spaces_of(line@));
    split_fields_by(line, &space)
}

/// The value of a decimal digit, or `None` for any other character.
pub open spec fn digit_value(c: char) -> Option<nat> {
    if c == '0' {
        Some(0nat)
    } else if c == '1' {
        Some(1nat)
    } else if c == '2' {
        Some(2nat)
    } else if c == '3' {
        Some(3nat)
    } else if c == '4' {
        Some(4nat)
    } else if c == '5' {
        Some(5nat)
    } else if c == '6' {
        Some(6nat)
    } else if c == '7' {
        Some(7nat)
    } else if c == '8' {
        Some(8nat)
    } else if c == '9' {
        Some(9nat)
    } else {
        None
    }
}

/// The number that a row of decimal digits writes, or `None` where a
/// character of it is no digit. The empty row writes 0.
pub open spec fn digits_value(digits: Seq<char>) -> Option<nat>
    decreases digits.len(),
{
    if digits.len() == 0 {
        Some(0nat)
    } else {
        match (digits_value(digits.drop_last()), digit_value(digits.last())) {
            (Some(high), Some(low)) => Some(high * 10 + low),
            _ => None,
        }
    }
}

/// The number that `text` writes as a 32-bit integer: an optional sign,
/// then one decimal digit or more, and a value that such an integer can
/// hold. `None` for every other text.
pub open spec fn parsed_i32(text: Seq<char>) -> Option<int> {
    let signed = text.len() > 0 && (text[0] == '-' || text[0] == '+');
    let digits = if signed {
        text.drop_first()
    } else {
        text
    };
    if digits.len() == 0 {
        None
    } else {
        match digits_value(digits) {
            None => None,
            Some(value) => {
                let number = if signed && text[0] == '-' {
                    -(value as int)
                } else {
                    value as int
                };
                if i32::MIN <= number <= i32::MAX {
                    Some(number)
                } else {
                    None
                }
            },
        }
    }
}

/// The value of a decimal digit.
pub fn digit_of(c: char) -> (value: Option<u8>)
    ensures
        value is Some <==> digit_value(c) is Some,
        value is Some ==> value->0 == digit_value(c)->0,
{
    if c == '0' {
        Some(0)
    } else if c == '1' {
        Some(1)
    } else if c == '2' {
        Some(2)
    } else if c == '3' {
        Some(3)
    } else if c == '4' {
        Some(4)
    } else if c == '5' {
        Some(5)
    } else if c == '6' {
        Some(6)
    } else if c == '7' {
        Some(7)
    } else if c == '8' {
        Some(8)
    } else if c == '9' {
        Some(9)
    } else {
        None
    }
}

/// A row of digits writes no number where a shorter row of its first
/// digits writes none.
proof fn lemma_digits_none(digits: Seq<char>, k: int)
    requires
        0 <= k <= digits.len(),
        digits_value(digits.take(k)) is None,
    ensures
        digits_value(digits) is None,
    decreases digits.len() - k,
{
    if k < digits.len() {
        assert(digits.take(k + 1).drop_last() == digits.take(k));
        lemma_digits_none(digits, k + 1);
    } else {
        assert(digits.take(k) == digits);
    }
}

/// More digits never write a smaller number.
proof fn lemma_digits_grow(digits: Seq<char>, k: int)
    requires
        0 <= k <= digits.len(),
        digits_value(digits) is Some,
    ensures
        digits_value(digits.take(k)) is Some,
        digits_value(digits.take(k))->0 <= digits_value(digits)->0,
    decreases digits.len() - k,
{
    if k < digits.len() {
        assert(digits.take(k + 1).drop_last() == digits.take(k));
        if digits_value(digits.take(k + 1)) is None {
            lemma_digits_none(digits, k + 1);
        }
        lemma_digits_grow(digits, k + 1);
        assert(digits_value(digits.take(k)) is Some);
    } else {
        assert(digits.take(k) == digits);
    }
}

/// Reads `text` as a 32-bit integer in decimal digits with an optional
/// sign.
pub fn parse_i32(text: &str) -> (number: Option<i32>)
    ensures
        number is Some <==> parsed_i32(text@) is Some,
        number is Some ==> number->0 == parsed_i32(text@)->0,
{
    let chars = chars_of(text);
    let n = chars.len();
    if n == 0 {
        return None;
    }
    let negative = chars[0] == '-';
    let signed = negative || chars[0] == '+';
    let first: usize = if signed {
        1
    } else {
        0
    };
    if first == n {
        assert(text@.drop_first().len() == 0);
        return None;
    }
    let ghost digits = if signed {
        text@.drop_first()
    } else {
        text@
    };
    let limit: u64 = 2147483648;
    let mut value: u64 = 0;
    let mut i: usize = first;
    proof {
        assert(digits.take(0) == Seq::<char>::empty());
    }
    while i < n
        invariant
            chars@ == text@,
            n == chars.len(),
            first <= i <= n,
            first == if signed { 1int } else { 0int },
            digits == if signed { text@.drop_first() } else { text@ },
            n > 0,
            signed == (text@[0] == '-' || text@[0] == '+'),
            digits.len() == n - first,
            limit == 2147483648,
            value <= limit,
            digits_value(digits.take(i - first)) == Some(value as nat),
        decreases n - i,
    {
        proof {
            assert(digits.take(i - first + 1).drop_last() == digits.take(i - first));
            assert(digits.take(i - first + 1).last() == text@[i as int]);
        }
        match digit_of(chars[i]) {
            None => {
                proof {
                    lemma_digits_none(digits, i - first + 1);
                }
                return None;
            },
            Some(d) => {
                value = value * 10 + d as u64;
                if value > limit {
                    proof {
                        if digits_value(digits) is Some {
                            lemma_digits_grow(digits, i - first + 1);
                        }
                    }
                    return None;
                }
            },
        }
        i = i + 1;
    }
    proof {
        assert(digits.take(n - first) == digits);
    }
    if negative {
        Some((-(value as i64)) as i32)
    } else if value == limit {
        None
    } else {
        Some(value as i32)
    }
}

/// The most bytes of a command that a record keeps.
pub const COMMAND_BYTES: usize = 15;

/// The fields that a line of the table must have to give a record.
pub const FIELDS_PER_LINE: usize = 11;

/// The bytes of a command as a record keeps them: all of them where they
/// are at most `COMMAND_BYTES`, else the first `COMMAND_BYTES`. `None` where
/// that cut would fall inside a character.
pub open spec fn cut_command(bytes: Seq<u8>) -> Option<Seq<u8>> {
    if bytes.len() <= COMMAND_BYTES {
        Some(bytes)
    } else if is_char_boundary(bytes, COMMAND_BYTES as int) {
        Some(bytes.take(COMMAND_BYTES as int))
    } else {
        None
    }
}

/// A command cut to at most `COMMAND_BYTES` bytes, or `None` where the cut
/// would fall inside a character.
pub fn truncate_command(command: &str) -> (cut: Option<String>)
    ensures
        cut is Some <==> cut_command(encode_utf8(command@)) is Some,
        cut is Some ==> Some(encode_utf8(cut->0@)) == cut_command(encode_utf8(command@)),
{
    if command.as_bytes().len() <= COMMAND_BYTES {
        Some(command.to_owned())
    } else if command.is_char_boundary(COMMAND_BYTES) {
        let head = command.split_at(COMMAND_BYTES).0;
        Some(head.to_owned())
    } else {
        None
    }
}

/// What a record's `mem` holds for the field `text`: the number it writes,
/// or 0 where it writes none.
pub open spec fn mem_of(text: Seq<char>) -> int {
    match parsed_i32(text) {
        Some(number) => number,
        None => 0,
    }
}

/// `record` is the record of a line with the fields `fields`: each field
/// in its place, the memory share as a number, the command cut short.
pub open spec fn is_record_of(record: JoltOutput, fields: Seq<Seq<char>>) -> bool {
    &&& record.user@ == fields[0]
    &&& record.pid@ == fields[1]
    &&& record.cpu@ == fields[2]
    &&& record.mem == mem_of(fields[3])
    &&& record.vsz@ == fields[4]
    &&& record.rss@ == fields[5]
    &&& record.tty@ == fields[6]
    &&& record.stat@ == fields[7]
    &&& record.start@ == fields[8]
    &&& record.time@ == fields[9]
    &&& Some(encode_utf8(record.command@)) == cut_command(encode_utf8(fields[10]))
}

/// What a line of the table gives.
#[derive(Debug, Clone, PartialEq, Eq)]
pub enum LineOutcome {
    /// Fewer than `FIELDS_PER_LINE` fields: the line is passed over.
    Short,
    /// The record of the line.
    Process(JoltOutput),
    /// The command of the line cannot be cut short between two characters.
    Uncut,
}

/// Whether a line with the fields `fields` can be taken: it is short, or
/// its command can be cut.
pub open spec fn line_passes(fields: Seq<Seq<char>>) -> bool {
    fields.len() < FIELDS_PER_LINE || cut_command(encode_utf8(fields[10])) is Some
}

/// Reads one line of the table.
pub fn parse_line(line: &str) -> (outcome: LineOutcome)
    ensures
        outcome is Short <==> fields_of(line@).len() < FIELDS_PER_LINE,
        outcome is Uncut <==> !line_passes(fields_of(line@)),
        outcome is Process ==> is_record_of(outcome->Process_0, fields_of(line@)),
{
    let fields = split_fields(line);
    if fields.len() < FIELDS_PER_LINE {
        return LineOutcome::Short;
    }
    let ghost shown = texts(fields@);
    proof {
        assert(shown[0] == fields@[0]@ && shown[1] == fields@[1]@ && shown[2] == fields@[2]@);
        assert(shown[3] == fields@[3]@ && shown[4] == fields@[4]@ && shown[5] == fields@[5]@);
        assert(shown[6] == fields@[6]@ && shown[7] == fields@[7]@ && shown[8] == fields@[8]@);
        assert(shown[9] == fields@[9]@ && shown[10] == fields@[10]@);
    }
    let command = match truncate_command(fields[10].as_str()) {
        Some(command) => command,
        None => {
            return LineOutcome::Uncut;
        },
    };
    let mem: i32 = match parse_i32(fields[3].as_str()) {
        Some(number) => number,
        None => 0,
    };
    LineOutcome::Process(
        JoltOutput {
            user: fields[0].clone(),
            pid: fields[1].clone(),
            cpu: fields[2].clone(),
            mem,
            vsz: fields[4].clone(),
            rss: fields[5].clone(),
            tty: fields[6].clone(),
            stat: fields[7].clone(),
            start: fields[8].clone(),
            time: fields[9].clone(),
            command,
        },
    )
}

/// The fields of those of `lines` that have `FIELDS_PER_LINE` fields or
/// more, in the order of the lines.
pub open spec fn full_rows(lines: Seq<Seq<char>>) -> Seq<Seq<Seq<char>>>
    decreases lines.len(),
{
    if lines.len() == 0 {
        Seq::empty()
    } else if fields_of(lines.last()).len() < FIELDS_PER_LINE {
        full_rows(lines.drop_last())
    } else {
        full_rows(lines.drop_last()).push(fields_of(lines.last()))
    }
}

/// Every one of `lines` can be taken.
pub open spec fn lines_pass(lines: Seq<Seq<char>>) -> bool
    decreases lines.len(),
{
    lines.len() == 0 || (lines_pass(lines.drop_last()) && line_passes(fields_of(lines.last())))
}

/// Lines of which the first ones cannot all be taken cannot all be taken.
proof fn lemma_lines_fail(lines: Seq<Seq<char>>, k: int)
    requires
        0 <= k <= lines.len(),
        !lines_pass(lines.take(k)),
    ensures
        !lines_pass(lines),
    decreases lines.len() - k,
{
    if k < lines.len() {
        assert(lines.take(k + 1).drop_last() == lines.take(k));
        lemma_lines_fail(lines, k + 1);
    } else {
        assert(lines.take(k) == lines);
    }
}

/// `records` are the records of the rows `rows`, one for one.
pub open spec fn records_of_rows(records: Seq<JoltOutput>, rows: Seq<Seq<Seq<char>>>) -> bool {
    &&& records.len() == rows.len()
    &&& forall|k: int| 0 <= k < records.len() ==> is_record_of(#[trigger] records[k], rows[k])
}

/// The lines of the table below its heading.
pub open spec fn body_lines(output: Seq<char>) -> Seq<Seq<char>> {
    split_on(output, '\n').skip(1)
}

/// Reads the table of running processes as the process lister printed it:
/// the first line is the heading; every further line with
/// `FIELDS_PER_LINE` fields or more gives a record, in the order of the
/// lines, and shorter lines are passed over. `None` where the command of
/// some line cannot be cut short between two characters.
pub fn scan_running_proccess(output: &str) -> (table: Option<Vec<JoltOutput>>)
    ensures
        table is Some <==> lines_pass(body_lines(output@)),
        table is Some ==> records_of_rows(table->0@, full_rows(body_lines(output@))),
{
    let lines = lines_of(output);
    let ghost all = texts(lines@);
    let ghost body = body_lines(output@);
    proof {
        lemma_split_on_nonempty(output@, '\n');
        assert(body.take(0) == Seq::<Seq<char>>::empty());
    }
    let mut records: Vec<JoltOutput> = Vec::new();
    let mut i: usize = 1;
    while i < lines.len()
        invariant
            1 <= i <= lines.len(),
            all == texts(lines@),
            all == split_on(output@, '\n'),
            body == all.skip(1),
            lines_pass(body.take(i - 1)),
            records_of_rows(records@, full_rows(body.take(i - 1))),
        decreases lines.len() - i,
    {
        proof {
            assert(body.take(i as int).drop_last() == body.take(i - 1));
            assert(body.take(i as int).last() == lines@[i as int]@);
        }
        match parse_line(lines[i].as_str()) {
            LineOutcome::Short => {},
            LineOutcome::Process(record) => {
                records.push(record);
            },
            LineOutcome::Uncut => {
                proof {
                    lemma_lines_fail(body, i as int);
                }
                return None;
            },
        }
        i = i + 1;
    }
    proof {
        assert(body.take(i - 1) == body);
    }
    Some(records)
}

} // verus!
