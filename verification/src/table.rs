//! Records as lines of text: one record as a list of its fields, and many
//! records as a table whose cells wrap over as many rows as the longest
//! field needs.

use crate::db::entry_views;
use crate::decimal::{decimal, decimal_string};
use crate::entry::{Entry, EntryView};
use crate::text::{chars_of, string_of, views};
use vstd::prelude::*;
use vstd::string::StringExecFns;

verus! {

/// The width of the identifier's column.
pub const ID_WIDTH: usize = 5;

/// The width of the first name's column.
pub const FIRST_NAME_WIDTH: usize = 10;

/// The width of the last name's column.
pub const LAST_NAME_WIDTH: usize = 15;

/// The width of the phone's column.
pub const PHONE_WIDTH: usize = 15;

/// The width of the address's column.
pub const ADDRESS_WIDTH: usize = 20;

/// The width of the e-mail's column.
pub const E_MAIL_WIDTH: usize = 20;

/// How many bytes a text takes in UTF-8. A field is measured in bytes, and
/// cut in characters.
pub open spec fn byte_len(s: Seq<char>) -> nat {
    vstd::utf8::encode_utf8(s).len()
}

/// `n` spaces.
pub open spec fn spaces(n: nat) -> Seq<char> {
    Seq::new(n, |i: int| ' ')
}

/// `s` with spaces behind it up to `width` characters; a longer text is
/// left as it is.
pub open spec fn pad_right(s: Seq<char>, width: nat) -> Seq<char> {
    if s.len() >= width {
        s
    } else {
        s + spaces((width - s.len()) as nat)
    }
}

/// Up to `count` characters of `s` from the character `from` on, as far as
/// `s` has them.
pub open spec fn window(s: Seq<char>, from: nat, count: nat) -> Seq<char> {
    let start = if from < s.len() {
        from
    } else {
        s.len()
    };
    let end = if from + count < s.len() {
        from + count
    } else {
        s.len()
    };
    s.subrange(start as int, end as int)
}

/// The field has more than fits into its cells up to row `line`.
pub open spec fn continues(value: Seq<char>, line: nat, width: nat) -> bool {
    byte_len(value) > width * (line + 1)
}

/// The cell of a field in row `line` of its record: blank where the field
/// has ended before, else the next `width` characters, filled up with
/// spaces in the field's last row.
pub open spec fn cell(value: Seq<char>, line: nat, width: nat) -> Seq<char> {
    let n = byte_len(value);
    if n <= width * line {
        pad_right(seq![' '], width)
    } else if n > width * (line + 1) {
        window(value, width * line, width)
    } else {
        pad_right(window(value, width * line, (n - width * line) as nat), width)
    }
}

/// Row `line` of a record: its six cells between bars.
pub open spec fn row(e: EntryView, line: nat) -> Seq<char> {
    "|"@ + cell(decimal(e.id as nat), line, ID_WIDTH as nat) + "|"@ + cell(
        e.first_name,
        line,
        FIRST_NAME_WIDTH as nat,
    ) + "|"@ + cell(e.last_name, line, LAST_NAME_WIDTH as nat) + "|"@ + cell(
        e.phone,
        line,
        PHONE_WIDTH as nat,
    ) + "|"@ + cell(e.address, line, ADDRESS_WIDTH as nat) + "|"@ + cell(
        e.e_mail,
        line,
        E_MAIL_WIDTH as nat,
    ) + "|"@
}

/// Some field of the record has more than fits into its cells up to row
/// `line`.
pub open spec fn row_continues(e: EntryView, line: nat) -> bool {
    ||| continues(decimal(e.id as nat), line, ID_WIDTH as nat)
    ||| continues(e.first_name, line, FIRST_NAME_WIDTH as nat)
    ||| continues(e.last_name, line, LAST_NAME_WIDTH as nat)
    ||| continues(e.phone, line, PHONE_WIDTH as nat)
    ||| continues(e.address, line, ADDRESS_WIDTH as nat)
    ||| continues(e.e_mail, line, E_MAIL_WIDTH as nat)
}

/// The bytes that the fields of a record take together.
pub open spec fn total_len(e: EntryView) -> nat {
    byte_len(decimal(e.id as nat)) + byte_len(e.first_name) + byte_len(e.last_name) + byte_len(
        e.phone,
    ) + byte_len(e.address) + byte_len(e.e_mail)
}

/// The rows of a record from row `line` on: one row, and further rows as
/// long as a field continues.
pub open spec fn rows_from(e: EntryView, line: nat) -> Seq<Seq<char>>
    decreases total_len(e) - line,
{
    if row_continues(e, line) && line < total_len(e) {
        seq![row(e, line)] + rows_from(e, line + 1)
    } else {
        seq![row(e, line)]
    }
}

/// The rows of a record in the table.
pub open spec fn entry_rows(e: EntryView) -> Seq<Seq<char>> {
    rows_from(e, 0)
}

/// The rows of the records, one record after the other.
pub open spec fn body_rows(records: Seq<EntryView>) -> Seq<Seq<char>>
    decreases records.len(),
{
    if records.len() == 0 {
        Seq::empty()
    } else {
        body_rows(records.drop_last()) + entry_rows(records.last())
    }
}

/// The line that separates the parts of the table.
pub open spec fn separator() -> Seq<char> {
    "+-----+----------+---------------+---------------+--------------------+--------------------+"@
}

/// The line that names the columns.
pub open spec fn header() -> Seq<char> {
    "| ID  |First name|   Last name   |  Phone book   |       Address      |       E-mail       |"@
}

/// The lines that show the records as a table, or say that there are none.
pub open spec fn table(records: Seq<EntryView>) -> Seq<Seq<char>> {
    if records.len() == 0 {
        seq!["No entries to show"@]
    } else {
        seq![separator(), header(), separator()] + body_rows(records) + seq![separator()]
    }
}

/// The lines that list the fields of one record, without its times.
pub open spec fn card(e: EntryView) -> Seq<Seq<char>> {
    seq![
        "        ID: "@ + decimal(e.id as nat),
        "First name: "@ + e.first_name,
        " Last name: "@ + e.last_name,
        "     Phone: "@ + e.phone,
        "   Address: "@ + e.address,
        "    E-mail: "@ + e.e_mail,
    ]
}

/// A field that continues behind row `line` is longer than `line + 1`
/// bytes, where its column is at least one character wide.
pub proof fn lemma_continues_bound(value: Seq<char>, line: nat, width: nat)
    requires
        width >= 1,
        continues(value, line, width),
    ensures
        line + 1 < byte_len(value),
{
    assert(width * (line + 1) >= line + 1) by (nonlinear_arith)
        requires
            width >= 1,
    ;
}

/// A record has a row behind row `line` only where `line + 1` is less than
/// the bytes of its fields together.
pub proof fn lemma_row_continues_bound(e: EntryView, line: nat)
    requires
        row_continues(e, line),
    ensures
        line + 1 < total_len(e),
{
    if continues(decimal(e.id as nat), line, ID_WIDTH as nat) {
        lemma_continues_bound(decimal(e.id as nat), line, ID_WIDTH as nat);
    } else if continues(e.first_name, line, FIRST_NAME_WIDTH as nat) {
        lemma_continues_bound(e.first_name, line, FIRST_NAME_WIDTH as nat);
    } else if continues(e.last_name, line, LAST_NAME_WIDTH as nat) {
        lemma_continues_bound(e.last_name, line, LAST_NAME_WIDTH as nat);
    } else if continues(e.phone, line, PHONE_WIDTH as nat) {
        lemma_continues_bound(e.phone, line, PHONE_WIDTH as nat);
    } else if continues(e.address, line, ADDRESS_WIDTH as nat) {
        lemma_continues_bound(e.address, line, ADDRESS_WIDTH as nat);
    } else {
        lemma_continues_bound(e.e_mail, line, E_MAIL_WIDTH as nat);
    }
}

/// The rows of a record are its rows 0, 1, and so on, up to the first
/// behind which no field continues.
pub proof fn lemma_rows_from(e: EntryView, line: nat)
    ensures
        rows_from(e, line).len() >= 1,
        forall|k: int|
            0 <= k < rows_from(e, line).len() ==> #[trigger] rows_from(e, line)[k] == row(
                e,
                (line + k) as nat,
            ),
        forall|k: int|
            0 <= k < rows_from(e, line).len() - 1 ==> #[trigger] row_continues(
                e,
                (line + k) as nat,
            ),
        !row_continues(e, (line + rows_from(e, line).len() - 1) as nat),
    decreases total_len(e) - line,
{
    if row_continues(e, line) {
        lemma_row_continues_bound(e, line);
        lemma_rows_from(e, line + 1);
        let rest = rows_from(e, line + 1);
        let all = rows_from(e, line);
        assert forall|k: int| 0 <= k < all.len() implies #[trigger] all[k] == row(
            e,
            (line + k) as nat,
        ) by {
            if k > 0 {
                assert(all[k] == rest[k - 1]);
            }
        }
        assert forall|k: int| 0 <= k < all.len() - 1 implies #[trigger] row_continues(
            e,
            (line + k) as nat,
        ) by {
            if k > 0 {
                assert(row_continues(e, (line + 1 + (k - 1)) as nat));
            }
        }
    }
}

/// Appends spaces to a text of `have` characters until it has `width`.
fn pad(s: &mut String, have: usize, width: usize)
    requires
        old(s)@.len() == have,
    ensures
        final(s)@ == pad_right(old(s)@, width as nat),
{
    let mut n: usize = have;
    while n < width
        invariant
            have <= n,
            n <= width || n == have,
            s@ == old(s)@ + spaces((n - have) as nat),
        decreases width - n,
    {
        s.push(' ');
        n = n + 1;
    }
}

/// The characters `from..from + count` of `chars`, as far as there are any.
fn cut(chars: &Vec<char>, from: usize, count: usize) -> (r: (String, usize))
    ensures
        r.0@ == window(chars@, from as nat, count as nat),
        r.1 == r.0@.len(),
{
    let start: usize = if from < chars.len() {
        from
    } else {
        chars.len()
    };
    let end: usize = if count < chars.len() - start {
        start + count
    } else {
        chars.len()
    };
    (string_of(chars, start, end), end - start)
}

/// The cell of a field in row `line_number` of its record, and whether the
/// field continues in the next row.
pub fn entry_field(value: &str, line_number: usize, available_width: usize) -> (r: (
    String,
    bool,
))
    ensures
        r.0@ == cell(value@, line_number as nat, available_width as nat),
        r.1 == continues(value@, line_number as nat, available_width as nat),
        byte_len(value@) <= usize::MAX,
{
    let n: usize = value.as_bytes().len();
    let chars = chars_of(value);
    assert(0 <= available_width as int * line_number as int <= 0xffff_ffff_ffff_ffff
        * 0xffff_ffff_ffff_ffff) by (nonlinear_arith)
        requires
            0 <= available_width as int <= 0xffff_ffff_ffff_ffff,
            0 <= line_number as int <= 0xffff_ffff_ffff_ffff,
    ;
    let from: u128 = (available_width as u128) * (line_number as u128);
    let to: u128 = from + available_width as u128;
    assert(to == available_width as nat * (line_number as nat + 1)) by (nonlinear_arith)
        requires
            to == from + available_width,
            from == available_width as int * line_number as int,
    ;
    if n as u128 <= from {
        let mut blank = " ".to_owned();
        proof {
            reveal_strlit(" ");
        }
        pad(&mut blank, 1, available_width);
        (blank, false)
    } else if n as u128 > to {
        let (text, _) = cut(&chars, from as usize, available_width);
        (text, true)
    } else {
        let (text, have) = cut(&chars, from as usize, n - from as usize);
        let mut text = text;
        pad(&mut text, have, available_width);
        (text, false)
    }
}

/// Row `line_number` of a record, and whether the record has a further row.
pub fn entry_line(entry: &Entry, line_number: usize) -> (r: (String, bool))
    ensures
        r.0@ == row(entry@, line_number as nat),
        r.1 == row_continues(entry@, line_number as nat),
        r.1 ==> line_number + 1 < total_len(entry@) && line_number < usize::MAX,
{
    let id = decimal_string(entry.id as u64);
    let (c0, m0) = entry_field(id.as_str(), line_number, ID_WIDTH);
    let (c1, m1) = entry_field(entry.first_name.as_str(), line_number, FIRST_NAME_WIDTH);
    let (c2, m2) = entry_field(entry.last_name.as_str(), line_number, LAST_NAME_WIDTH);
    let (c3, m3) = entry_field(entry.phone.as_str(), line_number, PHONE_WIDTH);
    let (c4, m4) = entry_field(entry.address.as_str(), line_number, ADDRESS_WIDTH);
    let (c5, m5) = entry_field(entry.e_mail.as_str(), line_number, E_MAIL_WIDTH);
    let mut line = "|".to_owned();
    line.append(c0.as_str());
    line.append("|");
    line.append(c1.as_str());
    line.append("|");
    line.append(c2.as_str());
    line.append("|");
    line.append(c3.as_str());
    line.append("|");
    line.append(c4.as_str());
    line.append("|");
    line.append(c5.as_str());
    line.append("|");
    let more = m0 || m1 || m2 || m3 || m4 || m5;
    proof {
        if more {
            lemma_row_continues_bound(entry@, line_number as nat);
        }
    }
    (line, more)
}

/// The rows of a record in the table: row 0, and each next row as long as
/// a field continues behind the row before.
pub fn entry_as_lines(entry: &Entry) -> (rows: Vec<String>)
    ensures
        views(rows@) == entry_rows(entry@),
        rows.len() >= 1,
        forall|k: int| 0 <= k < rows.len() ==> #[trigger] views(rows@)[k] == row(entry@, k as nat),
        forall|k: int| 0 <= k < rows.len() - 1 ==> #[trigger] row_continues(entry@, k as nat),
        !row_continues(entry@, (rows.len() - 1) as nat),
{
    let mut rows: Vec<String> = Vec::new();
    let mut i: usize = 0;
    loop
        invariant
            views(rows@) + rows_from(entry@, i as nat) == entry_rows(entry@),
        decreases total_len(entry@) - i,
    {
        let (line, has_more) = entry_line(entry, i);
        rows.push(line);
        if !has_more {
            proof {
                lemma_rows_from(entry@, 0);
                assert forall|k: int| 0 <= k < rows.len() - 1 implies #[trigger] row_continues(
                    entry@,
                    k as nat,
                ) by {
                    assert(row_continues(entry@, (0 + k) as nat));
                }
            }
            return rows;
        }
        i = i + 1;
    }
}

/// The lines that show the records as a table, or say that there are none.
pub fn all_entries(entries: &Vec<Entry>) -> (lines: Vec<String>)
    ensures
        views(lines@) == table(entry_views(entries@)),
{
    let mut lines: Vec<String> = Vec::new();
    if entries.len() == 0 {
        lines.push("No entries to show".to_owned());
        return lines;
    }
    lines.push(table_separator());
    lines.push(table_header());
    lines.push(table_separator());
    let ghost top = seq![separator(), header(), separator()];
    let mut i: usize = 0;
    while i < entries.len()
        invariant
            i <= entries.len(),
            top == seq![separator(), header(), separator()],
            views(lines@) == top + body_rows(entry_views(entries@).take(i as int)),
        decreases entries.len() - i,
    {
        let ghost done = entry_views(entries@).take(i as int);
        let ghost next = entry_views(entries@).take(i + 1);
        assert(next.drop_last() =~= done);
        let mut rows = entry_as_lines(&entries[i]);
        lines.append(&mut rows);
        assert(top + body_rows(done) + entry_rows(next.last()) =~= top + (body_rows(done)
            + entry_rows(next.last())));
        i = i + 1;
    }
    assert(entry_views(entries@).take(entries.len() as int) =~= entry_views(entries@));
    lines.push(table_separator());
    lines
}

/// The line that separates the parts of the table.
pub fn table_separator() -> (line: String)
    ensures
        line@ == separator(),
{
    "+-----+----------+---------------+---------------+--------------------+--------------------+".to_owned()
}

/// The line that names the columns.
pub fn table_header() -> (line: String)
    ensures
        line@ == header(),
{
    "| ID  |First name|   Last name   |  Phone book   |       Address      |       E-mail       |".to_owned()
}

/// A label and a value on one line.
fn labelled(label: &str, value: &str) -> (line: String)
    ensures
        line@ == label@ + value@,
{
    let mut line = label.to_owned();
    line.append(value);
    line
}

/// The lines that list the fields of one record, without its times.
pub fn single_entry(entry: &Entry) -> (lines: Vec<String>)
    ensures
        views(lines@) == card(entry@),
{
    let mut lines: Vec<String> = Vec::new();
    lines.push(labelled("        ID: ", decimal_string(entry.id as u64).as_str()));
    lines.push(labelled("First name: ", entry.first_name.as_str()));
    lines.push(labelled(" Last name: ", entry.last_name.as_str()));
    lines.push(labelled("     Phone: ", entry.phone.as_str()));
    lines.push(labelled("   Address: ", entry.address.as_str()));
    lines.push(labelled("    E-mail: ", entry.e_mail.as_str()));
    lines
}

} // verus!
