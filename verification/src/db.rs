//! The record store: the operations of a phonebook, and the store that
//! keeps its records in memory beside the path of its backing file.

use crate::clock::unix_now;
use crate::decimal::push_decimal;
use crate::entry::{Entry, EntryView, FIELD_SEPARATOR};
use crate::laws::{lemma_create_keeps_unique, lemma_delete_then_lookup, lemma_update_keeps_ids};
use crate::store::{
    clear_sentinel, cleared, created, decode_lines, decode_store, encode_lines, encode_store,
    has_id, lemma_create_keeps_storable, lemma_decode_encode_store, lemma_decoded_store_storable,
    lemma_delete_keeps_storable, lemma_position_is, lemma_position_range,
    lemma_update_keeps_storable, lookup, matches_term, max_id, not_found_text, patched, position,
    removed, search_result, storable, unique_ids, unwritable_text, update_fault, updated,
    writable, RECORD_SEPARATOR,
};
use crate::text::{has_substring, is_free_of, join_with, same_text, split_on, views};
use vstd::prelude::*;
use vstd::string::StringExecFns;

verus! {

/// What a vector of records holds, in order.
pub open spec fn entry_views(v: Seq<Entry>) -> Seq<EntryView> {
    v.map_values(|e: Entry| e@)
}

/// What a phonebook can do. No operation lets a separator into a text
/// field: a draft or a patch that holds one is refused, and the store stays
/// as it is. A store may also fail for reasons of its own, such as a file
/// that cannot be written: then a changing operation returns an error
/// although the records have changed as stated.
pub trait DB {
    /// The records of the store, in its own order.
    spec fn records(&self) -> Seq<EntryView>;

    /// Stores the draft at the end under the next free identifier, one more
    /// than the largest in the store, and returns the stored record. A
    /// draft with a separator in a text field is refused.
    fn create(&mut self, e: Entry) -> (r: Result<Entry, String>)
        requires
            writable(e@) ==> max_id(old(self).records()) < u16::MAX,
        ensures
            !writable(e@) ==> final(self).records() == old(self).records(),
            !writable(e@) ==> (r matches Err(m) && m@ == unwritable_text()),
            writable(e@) ==> final(self).records() == old(self).records().push(
                created(old(self).records(), e@),
            ),
            writable(e@) ==> (r matches Ok(stored) ==> stored@ == created(
                old(self).records(),
                e@,
            )),
            unique_ids(old(self).records()) ==> unique_ids(final(self).records()),
            storable(old(self).records()) ==> storable(final(self).records()),
    ;

    /// Rewrites the first record with identifier `id` from the patch and
    /// returns it. An identifier that no record has is reported as not
    /// found, whatever the patch holds; a patch with a separator in a text
    /// field is refused. In both cases nothing changes.
    fn update(&mut self, id: u16, e: Entry) -> (r: Result<Entry, String>)
        ensures
            !has_id(old(self).records(), id) ==> (r matches Err(m) && m@ == not_found_text(id)),
            update_fault(old(self).records(), id, e@) is Some ==> final(self).records()
                == old(self).records(),
            update_fault(old(self).records(), id, e@) matches Some(fault) ==> (r matches Err(m)
                && m@ == fault),
            update_fault(old(self).records(), id, e@) is None ==> exists|now: u64|
                final(self).records() == #[trigger] updated(old(self).records(), id, e@, now),
            update_fault(old(self).records(), id, e@) is None ==> (r matches Ok(stored)
                ==> stored@ == lookup(final(self).records(), id)),
            update_fault(old(self).records(), id, e@) is None ==> has_id(
                final(self).records(),
                id,
            ),
            unique_ids(old(self).records()) ==> unique_ids(final(self).records()),
            storable(old(self).records()) ==> storable(final(self).records()),
    ;

    /// Removes the first record with identifier `id` and returns it;
    /// without such a record nothing changes. Where identifiers are
    /// distinct, no record with this identifier is left.
    fn delete(&mut self, id: u16) -> (r: Result<Entry, String>)
        ensures
            !has_id(old(self).records(), id) ==> final(self).records() == old(self).records(),
            !has_id(old(self).records(), id) ==> (r matches Err(m) && m@ == not_found_text(id)),
            has_id(old(self).records(), id) ==> final(self).records() == removed(
                old(self).records(),
                id,
            ),
            has_id(old(self).records(), id) ==> (r matches Ok(gone) ==> gone@ == lookup(
                old(self).records(),
                id,
            )),
            has_id(old(self).records(), id) ==> final(self).records().len() + 1 == old(self).records().len(),
            unique_ids(old(self).records()) ==> unique_ids(final(self).records()),
            unique_ids(old(self).records()) ==> !has_id(final(self).records(), id),
            storable(old(self).records()) ==> storable(final(self).records()),
    ;

    /// Copies of all records, in the order of the store.
    fn read_all(&self) -> (r: Vec<Entry>)
        ensures
            entry_views(r@) == self.records(),
    ;

    /// A copy of the first record with identifier `id`.
    fn read_by_id(&self, id: u16) -> (r: Option<Entry>)
        ensures
            match r {
                Some(e) => has_id(self.records(), id) && e@ == lookup(self.records(), id),
                None => !has_id(self.records(), id),
            },
    ;

    /// Copies of the records in which `term` occurs, in the order of the
    /// store.
    fn search(&self, term: String) -> (r: Vec<Entry>)
        ensures
            entry_views(r@) == search_result(self.records(), term@),
    ;
}

/// A store of records read from a file, with the path of that file. No
/// text field of its records ever holds a separator.
pub struct FileDB {
    path: String,
    entries: Vec<Entry>,
}

/// The text that an update stores for a value that may be the clear
/// sentinel.
fn clear_or_keep(value: String) -> (r: String)
    ensures
        r@ == cleared(value@),
{
    proof {
        reveal_strlit("--");
        assert("--"@ =~= clear_sentinel());
    }
    if same_text(value.as_str(), "--") {
        String::new()
    } else {
        value
    }
}

/// Whether no text field of the record holds a field or a record
/// separator.
pub fn is_writable(e: &Entry) -> (r: bool)
    ensures
        r == writable(e@),
{
    is_free_of(e.first_name.as_str(), FIELD_SEPARATOR) && is_free_of(
        e.last_name.as_str(),
        FIELD_SEPARATOR,
    ) && is_free_of(e.phone.as_str(), FIELD_SEPARATOR) && is_free_of(
        e.address.as_str(),
        FIELD_SEPARATOR,
    ) && is_free_of(e.e_mail.as_str(), FIELD_SEPARATOR) && is_free_of(
        e.first_name.as_str(),
        RECORD_SEPARATOR,
    ) && is_free_of(e.last_name.as_str(), RECORD_SEPARATOR) && is_free_of(
        e.phone.as_str(),
        RECORD_SEPARATOR,
    ) && is_free_of(e.address.as_str(), RECORD_SEPARATOR) && is_free_of(
        e.e_mail.as_str(),
        RECORD_SEPARATOR,
    )
}

/// The message for a record that cannot be written.
fn unwritable() -> (m: String)
    ensures
        m@ == unwritable_text(),
{
    "field values must not contain ';' or a line break".to_owned()
}

/// The message for an identifier that no record has.
fn not_found(id: u16) -> (m: String)
    ensures
        m@ == not_found_text(id),
{
    let mut m = "could not find entry with ID ".to_owned();
    push_decimal(&mut m, id as u64);
    m
}

/// Whether `term` occurs in the record's full name, phone, address or
/// e-mail.
fn entry_matches(e: &Entry, term: &str) -> (r: bool)
    ensures
        r == matches_term(e@, term@),
{
    let mut name = e.first_name.clone();
    name.push(' ');
    name.append(e.last_name.as_str());
    has_substring(name.as_str(), term) || has_substring(e.phone.as_str(), term) || has_substring(
        e.address.as_str(),
        term,
    ) || has_substring(e.e_mail.as_str(), term)
}

impl FileDB {
    /// Every record of the store can be written and read back.
    #[verifier::type_invariant]
    spec fn well_formed(self) -> bool {
        storable(entry_views(self.entries@))
    }

    /// The path of the backing file.
    pub closed spec fn path_text(&self) -> Seq<char> {
        self.path@
    }

    /// Makes the store from what reading the file at `path` gave: its
    /// content, or the cause for which it could not be read. Lines of the
    /// content that decode to no record are passed over.
    pub fn new(path: String, loaded: Result<String, String>) -> (r: Result<FileDB, String>)
        ensures
            match loaded {
                Ok(content) => r matches Ok(db) && db.records() == decode_store(content@)
                    && db.path_text() == path@ && storable(db.records()),
                Err(cause) => r matches Err(m) && m@ == "failed to load DB: "@ + cause@,
            },
    {
        let content = match loaded {
            Ok(s) => s,
            Err(cause) => {
                let mut err = "failed to load DB: ".to_owned();
                err.append(cause.as_str());
                return Err(err);
            },
        };
        let lines = split_on(content.as_str(), RECORD_SEPARATOR);
        let mut entries: Vec<Entry> = Vec::new();
        let mut i: usize = 0;
        while i < lines.len()
            invariant
                i <= lines.len(),
                entry_views(entries@) == decode_lines(views(lines@).take(i as int)),
            decreases lines.len() - i,
        {
            let ghost read = views(lines@).take(i as int);
            let ghost next = views(lines@).take(i + 1);
            assert(next.drop_last() =~= read);
            match Entry::from(lines[i].as_str()) {
                Ok(e) => {
                    entries.push(e);
                },
                Err(_) => {},
            }
            i = i + 1;
        }
        assert(views(lines@).take(lines.len() as int) =~= views(lines@));
        proof {
            lemma_decoded_store_storable(content@);
        }
        Ok(FileDB { path, entries })
    }

    /// The path of the backing file.
    pub fn path(&self) -> (p: &String)
        ensures
            p@ == self.path_text(),
    {
        &self.path
    }

    /// The file content that holds the store as it is now. It reads back as
    /// the same store.
    pub fn content(&self) -> (c: String)
        ensures
            c@ == encode_store(self.records()),
            decode_store(c@) == self.records(),
            storable(self.records()),
    {
        proof {
            use_type_invariant(self);
            lemma_decode_encode_store(self.records());
        }
        let mut lines: Vec<String> = Vec::new();
        let mut i: usize = 0;
        while i < self.entries.len()
            invariant
                i <= self.entries.len(),
                views(lines@) == encode_lines(entry_views(self.entries@).take(i as int)),
            decreases self.entries.len() - i,
        {
            let ghost before = views(lines@);
            let line = self.entries[i].to_string();
            lines.push(line);
            assert(views(lines@) =~= before.push(line@));
            i = i + 1;
        }
        assert(entry_views(self.entries@).take(self.entries.len() as int) =~= entry_views(
            self.entries@,
        ));
        join_with(&lines, RECORD_SEPARATOR)
    }

    /// What a changing operation reports after the content was written to
    /// the backing file, or could not be for the cause given.
    pub fn saved(written: Result<(), String>) -> (r: Result<(), String>)
        ensures
            match written {
                Ok(_) => r is Ok,
                Err(cause) => r matches Err(m) && m@ == "failed to save DB: "@ + cause@,
            },
    {
        match written {
            Ok(()) => Ok(()),
            Err(cause) => {
                let mut err = "failed to save DB: ".to_owned();
                err.append(cause.as_str());
                Err(err)
            },
        }
    }

    /// The largest identifier in the store, zero where it is empty.
    pub fn largest_id(&self) -> (m: u16)
        ensures
            m == max_id(self.records()),
    {
        let mut m: u16 = 0;
        let mut i: usize = 0;
        while i < self.entries.len()
            invariant
                i <= self.entries.len(),
                m == max_id(entry_views(self.entries@).take(i as int)),
            decreases self.entries.len() - i,
        {
            let ghost next = entry_views(self.entries@).take(i + 1);
            assert(next.drop_last() =~= entry_views(self.entries@).take(i as int));
            if self.entries[i].id > m {
                m = self.entries[i].id;
            }
            i = i + 1;
        }
        assert(entry_views(self.entries@).take(self.entries.len() as int) =~= entry_views(
            self.entries@,
        ));
        m
    }

    /// Where the first record with identifier `id` stands.
    fn find(&self, id: u16) -> (r: Option<usize>)
        ensures
            match r {
                Some(i) => has_id(self.records(), id) && i == position(self.records(), id),
                None => !has_id(self.records(), id),
            },
    {
        let mut i: usize = 0;
        while i < self.entries.len()
            invariant
                i <= self.entries.len(),
                forall|j: int| 0 <= j < i ==> (#[trigger] entry_views(self.entries@)[j]).id != id,
            decreases self.entries.len() - i,
        {
            if self.entries[i].id == id {
                proof {
                    lemma_position_is(entry_views(self.entries@), id, i as int);
                }
                return Some(i);
            }
            i = i + 1;
        }
        proof {
            lemma_position_is(entry_views(self.entries@), id, i as int);
        }
        None
    }

    /// `update` at a time given: rewrites the first record with identifier
    /// `id` from the patch, with `now` as the time of the update, and
    /// returns it. An identifier that no record has is reported as not
    /// found, whatever the patch holds; a patch with a separator in a text
    /// field is refused. In both cases nothing changes.
    pub fn update_at(&mut self, id: u16, e: Entry, now: u64) -> (r: Result<Entry, String>)
        ensures
            final(self).path_text() == old(self).path_text(),
            storable(final(self).records()),
            match r {
                Ok(stored) => {
                    &&& update_fault(old(self).records(), id, e@) is None
                    &&& stored@ == patched(lookup(old(self).records(), id), e@, now)
                    &&& final(self).records() == updated(old(self).records(), id, e@, now)
                },
                Err(m) => {
                    &&& update_fault(old(self).records(), id, e@) == Some(m@)
                    &&& final(self).records() == old(self).records()
                },
            },
    {
        proof {
            use_type_invariant(&*self);
        }
        let at = match self.find(id) {
            Some(i) => i,
            None => return Err(not_found(id)),
        };
        if !is_writable(&e) {
            return Err(unwritable());
        }
        proof {
            lemma_update_keeps_storable(entry_views(self.entries@), id, e@, now);
        }
        let rewritten = Entry {
            id: self.entries[at].id,
            first_name: e.first_name,
            last_name: e.last_name,
            phone: e.phone,
            address: clear_or_keep(e.address),
            e_mail: clear_or_keep(e.e_mail),
            created_at: self.entries[at].created_at,
            updated_at: now,
        };
        let copy = rewritten.clone();
        let ghost before = entry_views(self.entries@);
        let mut entries: Vec<Entry> = Vec::new();
        std::mem::swap(&mut entries, &mut self.entries);
        entries.set(at, rewritten);
        assert(entry_views(entries@) =~= updated(before, id, e@, now));
        self.entries = entries;
        Ok(copy)
    }
}

impl DB for FileDB {
    closed spec fn records(&self) -> Seq<EntryView> {
        entry_views(self.entries@)
    }

    fn create(&mut self, e: Entry) -> (r: Result<Entry, String>)
        ensures
            r is Ok <==> writable(e@),
            final(self).path_text() == old(self).path_text(),
            storable(final(self).records()),
    {
        proof {
            use_type_invariant(&*self);
        }
        if !is_writable(&e) {
            return Err(unwritable());
        }
        proof {
            lemma_create_keeps_storable(entry_views(self.entries@), e@);
        }
        let ghost draft = e@;
        let mut e = e;
        let next_id = self.largest_id() + 1;
        e.id = next_id;
        let ghost before = entry_views(self.entries@);
        let mut entries: Vec<Entry> = Vec::new();
        std::mem::swap(&mut entries, &mut self.entries);
        entries.push(e.clone());
        assert(entry_views(entries@) =~= before.push(e@));
        self.entries = entries;
        proof {
            if unique_ids(before) {
                lemma_create_keeps_unique(before, draft);
            }
        }
        Ok(e)
    }

    fn update(&mut self, id: u16, e: Entry) -> (r: Result<Entry, String>)
        ensures
            r is Ok <==> update_fault(old(self).records(), id, e@) is None,
            final(self).path_text() == old(self).path_text(),
            storable(final(self).records()),
    {
        let now = unix_now();
        let r = self.update_at(id, e, now);
        proof {
            if r is Ok {
                lemma_update_keeps_ids(old(self).records(), id, e@, now);
                lemma_position_range(old(self).records(), id);
                lemma_position_range(final(self).records(), id);
                lemma_position_is(
                    final(self).records(),
                    id,
                    position(old(self).records(), id),
                );
            }
        }
        r
    }

    fn delete(&mut self, id: u16) -> (r: Result<Entry, String>)
        ensures
            r is Ok <==> has_id(old(self).records(), id),
            final(self).path_text() == old(self).path_text(),
            storable(final(self).records()),
    {
        proof {
            use_type_invariant(&*self);
        }
        let at = match self.find(id) {
            Some(i) => i,
            None => return Err(not_found(id)),
        };
        proof {
            lemma_delete_keeps_storable(entry_views(self.entries@), id);
        }
        let ghost before = entry_views(self.entries@);
        let mut entries: Vec<Entry> = Vec::new();
        std::mem::swap(&mut entries, &mut self.entries);
        let entry = entries.remove(at);
        assert(entry_views(entries@) =~= before.remove(at as int));
        self.entries = entries;
        proof {
            if unique_ids(before) {
                lemma_delete_then_lookup(before, id);
            }
        }
        Ok(entry)
    }

    fn read_all(&self) -> (r: Vec<Entry>) {
        let r = self.entries.clone();
        r
    }

    fn read_by_id(&self, id: u16) -> (r: Option<Entry>) {
        match self.find(id) {
            Some(i) => Some(self.entries[i].clone()),
            None => None,
        }
    }

    fn search(&self, term: String) -> (r: Vec<Entry>) {
        let mut found: Vec<Entry> = Vec::new();
        let mut i: usize = 0;
        proof {
            reveal(Seq::filter);
        }
        while i < self.entries.len()
            invariant
                i <= self.entries.len(),
                entry_views(found@) == search_result(
                    entry_views(self.entries@).take(i as int),
                    term@,
                ),
            decreases self.entries.len() - i,
        {
            let ghost next = entry_views(self.entries@).take(i + 1);
            proof {
                reveal(Seq::filter);
                assert(next.drop_last() =~= entry_views(self.entries@).take(i as int));
            }
            if entry_matches(&self.entries[i], term.as_str()) {
                found.push(self.entries[i].clone());
            }
            i = i + 1;
        }
        assert(entry_views(self.entries@).take(self.entries.len() as int) =~= entry_views(
            self.entries@,
        ));
        found
    }
}

} // verus!
