//! The record store as mathematics: a sequence of records in insertion
//! order, what each operation makes of it, and how it is written to a file.

use crate::decimal::decimal;
use crate::entry::{
    decode_entry, encode_entry, fields_free_of, lemma_decode_encode_entry,
    lemma_encoding_free_of, EntryView, FIELD_SEPARATOR,
};
use crate::text::{
    contains, free_of, join, lemma_split_join, lemma_split_pieces_free,
    lemma_split_pieces_keep_free, split,
};
use vstd::prelude::*;

verus! {

/// Stands between the records of an encoded store.
pub const RECORD_SEPARATOR: char = '\n';

/// The text that, given for `address` or `e_mail` in an update, asks for
/// the field to be emptied.
pub open spec fn clear_sentinel() -> Seq<char> {
    seq!['-', '-']
}

/// The lines that encode the records, one each.
pub open spec fn encode_lines(records: Seq<EntryView>) -> Seq<Seq<char>> {
    records.map_values(|e: EntryView| encode_entry(e))
}

/// The file content that holds the records: their lines with a record
/// separator between each two, none at the end.
pub open spec fn encode_store(records: Seq<EntryView>) -> Seq<char> {
    join(encode_lines(records), RECORD_SEPARATOR)
}

/// The records that the lines encode, in order; a line that encodes none is
/// passed over.
pub open spec fn decode_lines(lines: Seq<Seq<char>>) -> Seq<EntryView>
    decreases lines.len(),
{
    if lines.len() == 0 {
        Seq::empty()
    } else {
        let before = decode_lines(lines.drop_last());
        match decode_entry(lines.last()) {
            Ok(e) => before.push(e),
            Err(_) => before,
        }
    }
}

/// The records that a file content holds.
pub open spec fn decode_store(content: Seq<char>) -> Seq<EntryView> {
    decode_lines(split(content, RECORD_SEPARATOR))
}

/// The largest identifier among the records, zero where there is none.
pub open spec fn max_id(records: Seq<EntryView>) -> nat
    decreases records.len(),
{
    if records.len() == 0 {
        0
    } else {
        let before = max_id(records.drop_last());
        if records.last().id > before {
            records.last().id as nat
        } else {
            before
        }
    }
}

/// Where the first record with identifier `id` stands, or the number of
/// records where none has it.
pub open spec fn position(records: Seq<EntryView>, id: u16) -> int
    decreases records.len(),
{
    if records.len() == 0 {
        0
    } else if records[0].id == id {
        0
    } else {
        1 + position(records.skip(1), id)
    }
}

/// Some record has identifier `id`.
pub open spec fn has_id(records: Seq<EntryView>, id: u16) -> bool {
    position(records, id) < records.len()
}

/// No two records share an identifier.
pub open spec fn unique_ids(records: Seq<EntryView>) -> bool {
    forall|i: int, j: int|
        0 <= i < j < records.len() ==> (#[trigger] records[i]).id != (#[trigger] records[j]).id
}

/// The record that `create` stores for a draft: the draft under the next
/// free identifier, whatever identifier the draft came with.
pub open spec fn created(records: Seq<EntryView>, draft: EntryView) -> EntryView {
    EntryView { id: (max_id(records) + 1) as u16, ..draft }
}

/// What an update makes of a text that may be the clear sentinel.
pub open spec fn cleared(value: Seq<char>) -> Seq<char> {
    if value == clear_sentinel() {
        Seq::empty()
    } else {
        value
    }
}

/// The record that `update` stores: names and phone from the patch, address
/// and e-mail from the patch or emptied, identifier and creation time kept,
/// and `now` as the time of the update.
pub open spec fn patched(stored: EntryView, patch: EntryView, now: u64) -> EntryView {
    EntryView {
        id: stored.id,
        first_name: patch.first_name,
        last_name: patch.last_name,
        phone: patch.phone,
        address: cleared(patch.address),
        e_mail: cleared(patch.e_mail),
        created_at: stored.created_at,
        updated_at: now,
    }
}

/// The first record with identifier `id`; meaningful where there is one.
pub open spec fn lookup(records: Seq<EntryView>, id: u16) -> EntryView
    recommends
        has_id(records, id),
{
    records[position(records, id)]
}

/// The store after the first record with identifier `id` was rewritten from
/// the patch at the time `now`; meaningful where there is such a record.
pub open spec fn updated(records: Seq<EntryView>, id: u16, patch: EntryView, now: u64) -> Seq<
    EntryView,
>
    recommends
        has_id(records, id),
{
    records.update(position(records, id), patched(lookup(records, id), patch, now))
}

/// The store after the first record with identifier `id` was removed;
/// meaningful where there is such a record.
pub open spec fn removed(records: Seq<EntryView>, id: u16) -> Seq<EntryView>
    recommends
        has_id(records, id),
{
    records.remove(position(records, id))
}

/// The full name by which a record is searched.
pub open spec fn full_name(e: EntryView) -> Seq<char> {
    e.first_name.push(' ') + e.last_name
}

/// `term` occurs in the record's full name, phone, address or e-mail.
pub open spec fn matches_term(e: EntryView, term: Seq<char>) -> bool {
    ||| contains(full_name(e), term)
    ||| contains(e.phone, term)
    ||| contains(e.address, term)
    ||| contains(e.e_mail, term)
}

/// The records that match `term`, in the order of the store.
pub open spec fn search_result(records: Seq<EntryView>, term: Seq<char>) -> Seq<EntryView> {
    records.filter(|e: EntryView| matches_term(e, term))
}

/// The message for an identifier that no record has.
pub open spec fn not_found_text(id: u16) -> Seq<char> {
    "could not find entry with ID "@ + decimal(id as nat)
}

/// No text field of the record holds a field or a record separator, so
/// that the record can be written to a file and read back.
pub open spec fn writable(e: EntryView) -> bool {
    fields_free_of(e, FIELD_SEPARATOR) && fields_free_of(e, RECORD_SEPARATOR)
}

/// The message for a record that cannot be written.
pub open spec fn unwritable_text() -> Seq<char> {
    "field values must not contain ';' or a line break"@
}

/// Why an update is refused, if it is: an identifier that no record has
/// is reported whatever the patch holds; where a record has it, a patch
/// that cannot be written is refused.
pub open spec fn update_fault(records: Seq<EntryView>, id: u16, patch: EntryView) -> Option<
    Seq<char>,
> {
    if !has_id(records, id) {
        Some(not_found_text(id))
    } else if !writable(patch) {
        Some(unwritable_text())
    } else {
        None
    }
}

/// No text field of any record holds a field or a record separator.
pub open spec fn storable(records: Seq<EntryView>) -> bool {
    forall|i: int|
        0 <= i < records.len() ==> fields_free_of(#[trigger] records[i], FIELD_SEPARATOR)
            && fields_free_of(records[i], RECORD_SEPARATOR)
}

/// `position` is within the store or just behind it; where it is within,
/// the record there has the identifier and none before it has.
pub proof fn lemma_position_range(records: Seq<EntryView>, id: u16)
    ensures
        0 <= position(records, id) <= records.len(),
        has_id(records, id) ==> records[position(records, id)].id == id,
        forall|j: int| 0 <= j < position(records, id) ==> (#[trigger] records[j]).id != id,
    decreases records.len(),
{
    if records.len() > 0 && records[0].id != id {
        let rest = records.skip(1);
        lemma_position_range(rest, id);
        assert forall|j: int| 0 <= j < position(records, id) implies (#[trigger] records[j]).id
            != id by {
            if j > 0 {
                assert(rest[j - 1] == records[j]);
            }
        }
    }
}

/// `position` is `i` where no record before `i` has the identifier and the
/// store ends at `i` or has it there.
pub proof fn lemma_position_is(records: Seq<EntryView>, id: u16, i: int)
    requires
        0 <= i <= records.len(),
        forall|j: int| 0 <= j < i ==> (#[trigger] records[j]).id != id,
        i == records.len() || records[i].id == id,
    ensures
        position(records, id) == i,
    decreases i,
{
    if i > 0 {
        let rest = records.skip(1);
        assert forall|j: int| 0 <= j < i - 1 implies (#[trigger] rest[j]).id != id by {
            assert(rest[j] == records[j + 1]);
        }
        lemma_position_is(rest, id, i - 1);
    }
}

/// No identifier in the store exceeds `max_id`.
pub proof fn lemma_max_id_bounds(records: Seq<EntryView>)
    ensures
        max_id(records) <= u16::MAX,
        forall|i: int| 0 <= i < records.len() ==> (#[trigger] records[i]).id <= max_id(records),
        records.len() > 0 ==> exists|i: int|
            0 <= i < records.len() && (#[trigger] records[i]).id == max_id(records),
    decreases records.len(),
{
    if records.len() > 0 {
        let front = records.drop_last();
        lemma_max_id_bounds(front);
        assert forall|i: int| 0 <= i < records.len() implies (#[trigger] records[i]).id <= max_id(
            records,
        ) by {
            if i < front.len() {
                assert(front[i] == records[i]);
            }
        }
        if front.len() > 0 && records.last().id <= max_id(front) {
            let w = choose|i: int| 0 <= i < front.len() && (#[trigger] front[i]).id == max_id(front);
            assert(records[w] == front[w]);
        }
    }
}

/// Decoding the lines of records gives the records back, where no text
/// field holds a field separator.
pub proof fn lemma_decode_encode_lines(records: Seq<EntryView>)
    requires
        forall|i: int|
            0 <= i < records.len() ==> fields_free_of(#[trigger] records[i], FIELD_SEPARATOR),
    ensures
        decode_lines(encode_lines(records)) == records,
    decreases records.len(),
{
    if records.len() > 0 {
        let front = records.drop_last();
        assert forall|i: int| 0 <= i < front.len() implies fields_free_of(
            #[trigger] front[i],
            FIELD_SEPARATOR,
        ) by {
            assert(front[i] == records[i]);
        }
        lemma_decode_encode_lines(front);
        assert(encode_lines(records).drop_last() =~= encode_lines(front));
        lemma_decode_encode_entry(records.last());
    }
}

/// Round trip: a store whose text fields hold neither separator is read
/// back from its own file content, record for record and in order.
pub proof fn lemma_decode_encode_store(records: Seq<EntryView>)
    requires
        storable(records),
    ensures
        decode_store(encode_store(records)) == records,
{
    let lines = encode_lines(records);
    if records.len() == 0 {
        let empty = Seq::<char>::empty();
        assert(seq![empty].drop_last() =~= Seq::<Seq<char>>::empty());
        assert(decode_lines(Seq::<Seq<char>>::empty()) =~= Seq::<EntryView>::empty());
    } else {
        assert forall|k: int| 0 <= k < lines.len() implies crate::text::free_of(
            #[trigger] lines[k],
            RECORD_SEPARATOR,
        ) by {
            lemma_encoding_free_of(records[k], RECORD_SEPARATOR);
        }
        lemma_split_join(lines, RECORD_SEPARATOR);
        assert forall|i: int| 0 <= i < records.len() implies fields_free_of(
            #[trigger] records[i],
            FIELD_SEPARATOR,
        ) by {}
        lemma_decode_encode_lines(records);
    }
}

/// A record decoded from a line without a record separator holds neither
/// separator in its text fields.
pub proof fn lemma_decoded_entry_storable(line: Seq<char>)
    requires
        free_of(line, RECORD_SEPARATOR),
    ensures
        decode_entry(line) matches Ok(e) ==> fields_free_of(e, FIELD_SEPARATOR) && fields_free_of(
            e,
            RECORD_SEPARATOR,
        ),
{
    lemma_split_pieces_free(line, FIELD_SEPARATOR);
    lemma_split_pieces_keep_free(line, FIELD_SEPARATOR, RECORD_SEPARATOR);
}

/// The records decoded from lines without a record separator hold neither
/// separator in their text fields.
pub proof fn lemma_decoded_lines_storable(lines: Seq<Seq<char>>)
    requires
        forall|k: int| 0 <= k < lines.len() ==> free_of(#[trigger] lines[k], RECORD_SEPARATOR),
    ensures
        storable(decode_lines(lines)),
    decreases lines.len(),
{
    if lines.len() > 0 {
        let front = lines.drop_last();
        assert forall|k: int| 0 <= k < front.len() implies free_of(
            #[trigger] front[k],
            RECORD_SEPARATOR,
        ) by {
            assert(front[k] == lines[k]);
        }
        lemma_decoded_lines_storable(front);
        lemma_decoded_entry_storable(lines.last());
        let before = decode_lines(front);
        let all = decode_lines(lines);
        assert forall|i: int| 0 <= i < all.len() implies fields_free_of(
            #[trigger] all[i],
            FIELD_SEPARATOR,
        ) && fields_free_of(all[i], RECORD_SEPARATOR) by {
            if i < before.len() {
                assert(all[i] == before[i]);
            }
        }
    }
}

/// Whatever a file content holds, the records read from it hold neither
/// separator in their text fields.
pub proof fn lemma_decoded_store_storable(content: Seq<char>)
    ensures
        storable(decode_store(content)),
{
    lemma_split_pieces_free(content, RECORD_SEPARATOR);
    lemma_decoded_lines_storable(split(content, RECORD_SEPARATOR));
}

/// A store read from a file, written and read again, is the same store.
pub proof fn lemma_reload(content: Seq<char>)
    ensures
        decode_store(encode_store(decode_store(content))) == decode_store(content),
{
    lemma_decoded_store_storable(content);
    lemma_decode_encode_store(decode_store(content));
}

/// The clear sentinel holds no separator, so what an update stores for a
/// text holds a separator only where the text does.
pub proof fn lemma_cleared_free_of(value: Seq<char>, sep: char)
    requires
        free_of(value, sep),
    ensures
        free_of(cleared(value), sep),
{
}

/// A store that can be written stays so when `create` appends a draft that
/// can be written.
pub proof fn lemma_create_keeps_storable(records: Seq<EntryView>, draft: EntryView)
    requires
        storable(records),
        writable(draft),
    ensures
        storable(records.push(created(records, draft))),
{
    let after = records.push(created(records, draft));
    assert forall|i: int| 0 <= i < after.len() implies fields_free_of(
        #[trigger] after[i],
        FIELD_SEPARATOR,
    ) && fields_free_of(after[i], RECORD_SEPARATOR) by {
        if i < records.len() {
            assert(after[i] == records[i]);
        }
    }
}

/// A store that can be written stays so when `update` rewrites a record
/// from a patch that can be written.
pub proof fn lemma_update_keeps_storable(
    records: Seq<EntryView>,
    id: u16,
    patch: EntryView,
    now: u64,
)
    requires
        storable(records),
        writable(patch),
        has_id(records, id),
    ensures
        storable(updated(records, id, patch, now)),
{
    lemma_position_range(records, id);
    let at = position(records, id);
    let after = updated(records, id, patch, now);
    lemma_cleared_free_of(patch.address, FIELD_SEPARATOR);
    lemma_cleared_free_of(patch.address, RECORD_SEPARATOR);
    lemma_cleared_free_of(patch.e_mail, FIELD_SEPARATOR);
    lemma_cleared_free_of(patch.e_mail, RECORD_SEPARATOR);
    assert forall|i: int| 0 <= i < after.len() implies fields_free_of(
        #[trigger] after[i],
        FIELD_SEPARATOR,
    ) && fields_free_of(after[i], RECORD_SEPARATOR) by {
        if i != at {
            assert(after[i] == records[i]);
        }
    }
}

/// A store that can be written stays so when `delete` removes a record.
pub proof fn lemma_delete_keeps_storable(records: Seq<EntryView>, id: u16)
    requires
        storable(records),
        has_id(records, id),
    ensures
        storable(removed(records, id)),
{
    lemma_position_range(records, id);
    let at = position(records, id);
    let after = removed(records, id);
    assert forall|i: int| 0 <= i < after.len() implies fields_free_of(
        #[trigger] after[i],
        FIELD_SEPARATOR,
    ) && fields_free_of(after[i], RECORD_SEPARATOR) by {
        if i < at {
            assert(after[i] == records[i]);
        } else {
            assert(after[i] == records[i + 1]);
        }
    }
}

} // verus!
