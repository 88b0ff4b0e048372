//! One contact record, and its encoding as a line of separated fields.

use crate::decimal::{
    decimal, decimal_string, error_text, lemma_decimal, lemma_parse_decimal, parse_number,
    parse_u16, parse_u64, NumberError,
};
use crate::text::{free_of, join, join_with, lemma_split_join, split, split_on, views};
use vstd::prelude::*;
use vstd::string::StringExecFns;

verus! {

/// Stands between the fields of an encoded record.
pub const FIELD_SEPARATOR: char = ';';

/// How many fields an encoded record has.
pub const FIELD_COUNT: usize = 8;

/// A contact record.
#[derive(Debug, PartialEq, Eq)]
pub struct Entry {
    pub id: u16,
    pub first_name: String,
    pub last_name: String,
    pub phone: String,
    pub address: String,
    pub e_mail: String,
    pub created_at: u64,
    pub updated_at: u64,
}

/// What a contact record holds, as mathematics sees it.
pub struct EntryView {
    pub id: u16,
    pub first_name: Seq<char>,
    pub last_name: Seq<char>,
    pub phone: Seq<char>,
    pub address: Seq<char>,
    pub e_mail: Seq<char>,
    pub created_at: u64,
    pub updated_at: u64,
}

impl View for Entry {
    type V = EntryView;

    open spec fn view(&self) -> EntryView {
        EntryView {
            id: self.id,
            first_name: self.first_name@,
            last_name: self.last_name@,
            phone: self.phone@,
            address: self.address@,
            e_mail: self.e_mail@,
            created_at: self.created_at,
            updated_at: self.updated_at,
        }
    }
}

/// Why a line does not decode to a record.
pub enum DecodeError {
    /// The line does not have eight fields.
    FieldCount,
    /// The first field is not a `u16`.
    Id(NumberError),
    /// The seventh field is not a `u64`.
    CreatedAt(NumberError),
    /// The eighth field is not a `u64`.
    UpdatedAt(NumberError),
}

/// The eight fields of a record in the order of the encoding, the numbers in
/// decimal notation.
pub open spec fn entry_fields(e: EntryView) -> Seq<Seq<char>> {
    seq![
        decimal(e.id as nat),
        e.first_name,
        e.last_name,
        e.phone,
        e.address,
        e.e_mail,
        decimal(e.created_at as nat),
        decimal(e.updated_at as nat),
    ]
}

/// The line that encodes a record.
pub open spec fn encode_entry(e: EntryView) -> Seq<char> {
    join(entry_fields(e), FIELD_SEPARATOR)
}

/// The record that a line encodes, or why it encodes none. Text fields are
/// taken as they stand.
pub open spec fn decode_entry(s: Seq<char>) -> Result<EntryView, DecodeError> {
    let parts = split(s, FIELD_SEPARATOR);
    if parts.len() != FIELD_COUNT {
        Err(DecodeError::FieldCount)
    } else {
        match parse_number(parts[0], u16::MAX as nat) {
            Err(e) => Err(DecodeError::Id(e)),
            Ok(id) => match parse_number(parts[6], u64::MAX as nat) {
                Err(e) => Err(DecodeError::CreatedAt(e)),
                Ok(created_at) => match parse_number(parts[7], u64::MAX as nat) {
                    Err(e) => Err(DecodeError::UpdatedAt(e)),
                    Ok(updated_at) => Ok(
                        EntryView {
                            id: id as u16,
                            first_name: parts[1],
                            last_name: parts[2],
                            phone: parts[3],
                            address: parts[4],
                            e_mail: parts[5],
                            created_at: created_at as u64,
                            updated_at: updated_at as u64,
                        },
                    ),
                },
            },
        }
    }
}

/// The message that reports a decoding fault.
pub open spec fn decode_error_text(e: DecodeError) -> Seq<char> {
    match e {
        DecodeError::FieldCount => "wrong number of arguments"@,
        DecodeError::Id(k) => "failed to parse id: "@ + error_text(k),
        DecodeError::CreatedAt(k) => "failed to parse created_at: "@ + error_text(k),
        DecodeError::UpdatedAt(k) => "failed to parse updated_at: "@ + error_text(k),
    }
}

/// No text field of the record holds `sep`.
pub open spec fn fields_free_of(e: EntryView, sep: char) -> bool {
    &&& free_of(e.first_name, sep)
    &&& free_of(e.last_name, sep)
    &&& free_of(e.phone, sep)
    &&& free_of(e.address, sep)
    &&& free_of(e.e_mail, sep)
}

/// Decimal notation holds nothing but digits, so no separator.
pub proof fn lemma_decimal_free_of(n: nat, sep: char)
    requires
        crate::decimal::digit_value(sep) is None,
    ensures
        free_of(decimal(n), sep),
{
    lemma_decimal(n);
    assert forall|i: int| 0 <= i < decimal(n).len() implies decimal(n)[i] != sep by {
        assert(crate::decimal::is_digit(decimal(n)[i]));
    }
}

/// The encoding of a record holds `sep` only where a text field does,
/// unless `sep` is the field separator or a digit.
pub proof fn lemma_encoding_free_of(e: EntryView, sep: char)
    requires
        fields_free_of(e, sep),
        sep != FIELD_SEPARATOR,
        crate::decimal::digit_value(sep) is None,
    ensures
        free_of(encode_entry(e), sep),
{
    lemma_decimal_free_of(e.id as nat, sep);
    lemma_decimal_free_of(e.created_at as nat, sep);
    lemma_decimal_free_of(e.updated_at as nat, sep);
    let parts = entry_fields(e);
    assert forall|k: int| 0 <= k < parts.len() implies free_of(#[trigger] parts[k], sep) by {}
    crate::text::lemma_join_free_of(parts, FIELD_SEPARATOR, sep);
}

/// A record whose text fields hold no field separator decodes from its own
/// encoding.
pub proof fn lemma_decode_encode_entry(e: EntryView)
    requires
        fields_free_of(e, FIELD_SEPARATOR),
    ensures
        decode_entry(encode_entry(e)) == Ok::<EntryView, DecodeError>(e),
{
    let parts = entry_fields(e);
    lemma_decimal_free_of(e.id as nat, FIELD_SEPARATOR);
    lemma_decimal_free_of(e.created_at as nat, FIELD_SEPARATOR);
    lemma_decimal_free_of(e.updated_at as nat, FIELD_SEPARATOR);
    assert forall|k: int| 0 <= k < parts.len() implies free_of(
        #[trigger] parts[k],
        FIELD_SEPARATOR,
    ) by {}
    lemma_split_join(parts, FIELD_SEPARATOR);
    lemma_parse_decimal(e.id as nat, u16::MAX as nat);
    lemma_parse_decimal(e.created_at as nat, u64::MAX as nat);
    lemma_parse_decimal(e.updated_at as nat, u64::MAX as nat);
}

impl Entry {
    /// Decodes one line. The line must have eight fields, the first a `u16`
    /// and the last two `u64`s; the five between them are kept as they are.
    pub fn from(s: &str) -> (r: Result<Entry, String>)
        ensures
            match r {
                Ok(e) => decode_entry(s@) == Ok::<EntryView, DecodeError>(e@),
                Err(m) => decode_entry(s@) is Err && m@ == decode_error_text(
                    decode_entry(s@)->Err_0,
                ),
            },
    {
        let parts = split_on(s, FIELD_SEPARATOR);
        if parts.len() != FIELD_COUNT {
            return Err("wrong number of arguments".to_owned());
        }
        let id = match parse_u16(parts[0].as_str()) {
            Ok(x) => x,
            Err(e) => {
                let mut err = "failed to parse id: ".to_owned();
                err.append(e.message().as_str());
                return Err(err);
            },
        };
        let created_at = match parse_u64(parts[6].as_str()) {
            Ok(x) => x,
            Err(e) => {
                let mut err = "failed to parse created_at: ".to_owned();
                err.append(e.message().as_str());
                return Err(err);
            },
        };
        let updated_at = match parse_u64(parts[7].as_str()) {
            Ok(x) => x,
            Err(e) => {
                let mut err = "failed to parse updated_at: ".to_owned();
                err.append(e.message().as_str());
                return Err(err);
            },
        };
        Ok(
            Entry {
                id,
                first_name: parts[1].clone(),
                last_name: parts[2].clone(),
                phone: parts[3].clone(),
                address: parts[4].clone(),
                e_mail: parts[5].clone(),
                created_at,
                updated_at,
            },
        )
    }

    /// Encodes the record as one line. The line decodes to the same record
    /// where no text field holds a field separator, as is so of every
    /// record that a store holds.
    pub fn to_string(&self) -> (s: String)
        ensures
            s@ == encode_entry(self@),
            fields_free_of(self@, FIELD_SEPARATOR) ==> decode_entry(s@) == Ok::<
                EntryView,
                DecodeError,
            >(self@),
    {
        proof {
            if fields_free_of(self@, FIELD_SEPARATOR) {
                lemma_decode_encode_entry(self@);
            }
        }
        let mut parts: Vec<String> = Vec::new();
        parts.push(decimal_string(self.id as u64));
        parts.push(self.first_name.clone());
        parts.push(self.last_name.clone());
        parts.push(self.phone.clone());
        parts.push(self.address.clone());
        parts.push(self.e_mail.clone());
        parts.push(decimal_string(self.created_at));
        parts.push(decimal_string(self.updated_at));
        assert(views(parts@) =~= entry_fields(self@));
        join_with(&parts, FIELD_SEPARATOR)
    }
}

impl Clone for Entry {
    fn clone(&self) -> (r: Self)
        ensures
            r == *self,
    {
        Entry {
            id: self.id,
            first_name: self.first_name.clone(),
            last_name: self.last_name.clone(),
            phone: self.phone.clone(),
            address: self.address.clone(),
            e_mail: self.e_mail.clone(),
            created_at: self.created_at,
            updated_at: self.updated_at,
        }
    }

    fn clone_from(&mut self, source: &Self)
        ensures
            *final(self) == *source,
    {
        self.id = source.id;
        self.first_name = source.first_name.clone();
        self.last_name = source.last_name.clone();
        self.phone = source.phone.clone();
        self.address = source.address.clone();
        self.e_mail = source.e_mail.clone();
        self.created_at = source.created_at;
        self.updated_at = source.updated_at;
    }
}

} // verus!
