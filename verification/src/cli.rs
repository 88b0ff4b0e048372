//! The command line of the phonebook: how its words are read into a
//! request, and what each operation demands of the request.

use crate::clock::unix_now;
use crate::db::{entry_views, is_writable, FileDB, DB};
use crate::decimal::{error_text, parse_number, parse_u16, NumberError};
use crate::entry::{Entry, EntryView};
use crate::store::{
    clear_sentinel, created, has_id, lookup, max_id, not_found_text, patched, removed,
    search_result, unwritable_text, update_fault, updated, writable,
};
use crate::text::{same_text, views};
use vstd::prelude::*;
use vstd::string::StringExecFns;

verus! {

/// What the phonebook is asked to do.
#[derive(Clone, Copy, Debug)]
pub enum Operation {
    Create,
    Update,
    Delete,
    Search,
    Help,
    Unset,
}

/// The parameters that take a value.
#[derive(Clone, Copy, Debug)]
pub enum ArgString {
    DatabasePath,
    ID,
    FirstName,
    LastName,
    Phone,
    Address,
    Email,
    SearchTerm,
}

/// What a word of the command line is, where a parameter or a command is
/// expected.
#[derive(Clone, Copy, Debug)]
pub enum Word {
    /// A parameter, whose value is the next word.
    Parameter(ArgString),
    /// A command, which stands alone.
    Command(Operation),
    /// Neither.
    Unknown,
}

/// A request as read from the command line.
pub struct Parameters {
    pub database_path: String,
    pub operation: Operation,
    pub id: u16,
    pub first_name: String,
    pub last_name: String,
    pub phone: String,
    pub address: String,
    pub e_mail: String,
    pub search_term: String,
}

/// What a request holds, as mathematics sees it.
pub struct ParametersView {
    pub database_path: Seq<char>,
    pub operation: Operation,
    pub id: u16,
    pub first_name: Seq<char>,
    pub last_name: Seq<char>,
    pub phone: Seq<char>,
    pub address: Seq<char>,
    pub e_mail: Seq<char>,
    pub search_term: Seq<char>,
}

impl View for Parameters {
    type V = ParametersView;

    open spec fn view(&self) -> ParametersView {
        ParametersView {
            database_path: self.database_path@,
            operation: self.operation,
            id: self.id,
            first_name: self.first_name@,
            last_name: self.last_name@,
            phone: self.phone@,
            address: self.address@,
            e_mail: self.e_mail@,
            search_term: self.search_term@,
        }
    }
}

/// Why a command line is not a request.
pub enum ArgumentError {
    /// A word is neither a parameter nor a command.
    UnknownParameter(Seq<char>),
    /// The command line ends behind a parameter.
    MissingValue(Seq<char>),
    /// The value of the identifier is not a `u16`.
    BadId(NumberError),
}

/// The request before any word was read: no operation, identifier zero,
/// every text empty.
pub open spec fn blank() -> ParametersView {
    ParametersView {
        database_path: Seq::empty(),
        operation: Operation::Unset,
        id: 0,
        first_name: Seq::empty(),
        last_name: Seq::empty(),
        phone: Seq::empty(),
        address: Seq::empty(),
        e_mail: Seq::empty(),
        search_term: Seq::empty(),
    }
}

/// What `word` is: each parameter has a short and a long spelling, `help`
/// too, the other commands one.
pub open spec fn classify(word: Seq<char>) -> Word {
    if word == "-d"@ || word == "db-path"@ {
        Word::Parameter(ArgString::DatabasePath)
    } else if word == "-i"@ || word == "id"@ {
        Word::Parameter(ArgString::ID)
    } else if word == "-f"@ || word == "first-name"@ {
        Word::Parameter(ArgString::FirstName)
    } else if word == "-l"@ || word == "last-name"@ {
        Word::Parameter(ArgString::LastName)
    } else if word == "-p"@ || word == "phone"@ {
        Word::Parameter(ArgString::Phone)
    } else if word == "-a"@ || word == "address"@ {
        Word::Parameter(ArgString::Address)
    } else if word == "-e"@ || word == "e-mail"@ {
        Word::Parameter(ArgString::Email)
    } else if word == "-t"@ || word == "term"@ {
        Word::Parameter(ArgString::SearchTerm)
    } else if word == "create"@ {
        Word::Command(Operation::Create)
    } else if word == "update"@ {
        Word::Command(Operation::Update)
    } else if word == "delete"@ {
        Word::Command(Operation::Delete)
    } else if word == "search"@ {
        Word::Command(Operation::Search)
    } else if word == "-h"@ || word == "help"@ {
        Word::Command(Operation::Help)
    } else {
        Word::Unknown
    }
}

/// The request with `value` given for one parameter. Only the identifier
/// can be refused: it must be a `u16`.
pub open spec fn assign(p: ParametersView, which: ArgString, value: Seq<char>) -> Result<
    ParametersView,
    ArgumentError,
> {
    match which {
        ArgString::DatabasePath => Ok(ParametersView { database_path: value, ..p }),
        ArgString::ID => match parse_number(value, u16::MAX as nat) {
            Ok(n) => Ok(ParametersView { id: n as u16, ..p }),
            Err(e) => Err(ArgumentError::BadId(e)),
        },
        ArgString::FirstName => Ok(ParametersView { first_name: value, ..p }),
        ArgString::LastName => Ok(ParametersView { last_name: value, ..p }),
        ArgString::Phone => Ok(ParametersView { phone: value, ..p }),
        ArgString::Address => Ok(ParametersView { address: value, ..p }),
        ArgString::Email => Ok(ParametersView { e_mail: value, ..p }),
        ArgString::SearchTerm => Ok(ParametersView { search_term: value, ..p }),
    }
}

/// The request that the words from `at` on make of `p`, read from left to
/// right: a command sets the operation, a parameter takes the next word as
/// its value, and a later word overrides an earlier one. Reading stops at
/// the first fault.
pub open spec fn read_from(words: Seq<Seq<char>>, at: int, p: ParametersView) -> Result<
    ParametersView,
    ArgumentError,
>
    decreases words.len() - at,
{
    if at < 0 || at >= words.len() {
        Ok(p)
    } else {
        match classify(words[at]) {
            Word::Command(operation) => read_from(
                words,
                at + 1,
                ParametersView { operation, ..p },
            ),
            Word::Unknown => Err(ArgumentError::UnknownParameter(words[at])),
            Word::Parameter(which) => if at + 1 >= words.len() {
                Err(ArgumentError::MissingValue(words[at]))
            } else {
                match assign(p, which, words[at + 1]) {
                    Ok(next) => read_from(words, at + 2, next),
                    Err(e) => Err(e),
                }
            },
        }
    }
}

/// The request that a command line makes. Its first word names the program
/// and is passed over.
pub open spec fn read_arguments(words: Seq<Seq<char>>) -> Result<ParametersView, ArgumentError> {
    read_from(words, 1, blank())
}

/// The message that reports a fault of the command line.
pub open spec fn argument_error_text(e: ArgumentError) -> Seq<char> {
    match e {
        ArgumentError::UnknownParameter(word) => "unknown parameter "@ + word,
        ArgumentError::MissingValue(word) => "missing value for parameter "@ + word,
        ArgumentError::BadId(k) => error_text(k),
    }
}

/// A mandatory text is missing: it is empty, or the clear sentinel.
pub open spec fn unstated(value: Seq<char>) -> bool {
    value.len() == 0 || value == clear_sentinel()
}

/// The record that a request describes, both times zero.
pub open spec fn entry_of(p: ParametersView) -> EntryView {
    EntryView {
        id: p.id,
        first_name: p.first_name,
        last_name: p.last_name,
        phone: p.phone,
        address: p.address,
        e_mail: p.e_mail,
        created_at: 0,
        updated_at: 0,
    }
}

impl Default for Parameters {
    fn default() -> (p: Parameters)
        ensures
            p@ == blank(),
    {
        Parameters {
            database_path: String::new(),
            operation: Operation::Unset,
            id: 0,
            first_name: String::new(),
            last_name: String::new(),
            phone: String::new(),
            address: String::new(),
            e_mail: String::new(),
            search_term: String::new(),
        }
    }
}

impl Parameters {
    /// The record that the request describes, both times zero.
    pub fn to_entry(self) -> (e: Entry)
        ensures
            e@ == entry_of(self@),
    {
        Entry {
            id: self.id,
            first_name: self.first_name,
            last_name: self.last_name,
            phone: self.phone,
            address: self.address,
            e_mail: self.e_mail,
            created_at: 0,
            updated_at: 0,
        }
    }
}

/// What `word` is.
fn classify_word(word: &str) -> (w: Word)
    ensures
        w == classify(word@),
{
    if same_text(word, "-d") || same_text(word, "db-path") {
        Word::Parameter(ArgString::DatabasePath)
    } else if same_text(word, "-i") || same_text(word, "id") {
        Word::Parameter(ArgString::ID)
    } else if same_text(word, "-f") || same_text(word, "first-name") {
        Word::Parameter(ArgString::FirstName)
    } else if same_text(word, "-l") || same_text(word, "last-name") {
        Word::Parameter(ArgString::LastName)
    } else if same_text(word, "-p") || same_text(word, "phone") {
        Word::Parameter(ArgString::Phone)
    } else if same_text(word, "-a") || same_text(word, "address") {
        Word::Parameter(ArgString::Address)
    } else if same_text(word, "-e") || same_text(word, "e-mail") {
        Word::Parameter(ArgString::Email)
    } else if same_text(word, "-t") || same_text(word, "term") {
        Word::Parameter(ArgString::SearchTerm)
    } else if same_text(word, "create") {
        Word::Command(Operation::Create)
    } else if same_text(word, "update") {
        Word::Command(Operation::Update)
    } else if same_text(word, "delete") {
        Word::Command(Operation::Delete)
    } else if same_text(word, "search") {
        Word::Command(Operation::Search)
    } else if same_text(word, "-h") || same_text(word, "help") {
        Word::Command(Operation::Help)
    } else {
        Word::Unknown
    }
}

/// A message made of a fixed start and a word of the command line.
fn message_about(start: &str, word: &str) -> (m: String)
    ensures
        m@ == start@ + word@,
{
    let mut m = start.to_owned();
    m.append(word);
    m
}

/// Reads a command line into a request.
pub fn parse_arguments(args: Vec<String>) -> (r: Result<Parameters, String>)
    ensures
        match r {
            Ok(p) => read_arguments(views(args@)) == Ok::<ParametersView, ArgumentError>(p@),
            Err(m) => read_arguments(views(args@)) is Err && m@ == argument_error_text(
                read_arguments(views(args@))->Err_0,
            ),
        },
{
    let mut result = Parameters::default();
    let ghost words = views(args@);
    let mut i: usize = 1;
    while i < args.len()
        invariant
            1 <= i,
            words == views(args@),
            read_from(words, i as int, result@) == read_arguments(words),
        decreases args.len() - i,
    {
        let which = match classify_word(args[i].as_str()) {
            Word::Command(operation) => {
                result.operation = operation;
                i = i + 1;
                continue ;
            },
            Word::Unknown => {
                return Err(message_about("unknown parameter ", args[i].as_str()));
            },
            Word::Parameter(which) => which,
        };
        if i + 1 >= args.len() {
            return Err(message_about("missing value for parameter ", args[i].as_str()));
        }
        let value = args[i + 1].clone();
        match which {
            ArgString::DatabasePath => result.database_path = value,
            ArgString::ID => {
                result.id = match parse_u16(value.as_str()) {
                    Ok(x) => x,
                    Err(e) => return Err(e.message()),
                };
            },
            ArgString::FirstName => result.first_name = value,
            ArgString::LastName => result.last_name = value,
            ArgString::Phone => result.phone = value,
            ArgString::Address => result.address = value,
            ArgString::Email => result.e_mail = value,
            ArgString::SearchTerm => result.search_term = value,
        }
        i = i + 2;
    }
    Ok(result)
}

/// An identifier must be stated, and not zero.
pub fn check_param_id(id: u16) -> (r: Result<(), String>)
    ensures
        match r {
            Ok(_) => id > 0,
            Err(m) => id == 0 && m@ == "id must be stated and it must be a positive number"@,
        },
{
    if id == 0 {
        return Err("id must be stated and it must be a positive number".to_owned());
    }
    Ok(())
}

/// A search term must be stated, and not empty.
pub fn check_param_term(term: &String) -> (r: Result<(), String>)
    ensures
        match r {
            Ok(_) => term@.len() > 0,
            Err(m) => term@.len() == 0 && m@ == "term must be stated"@,
        },
{
    if term.as_str().is_empty() {
        return Err("term must be stated".to_owned());
    }
    Ok(())
}

/// What `delete` demands of a request: an identifier.
pub fn check_delete_params(p: &Parameters) -> (r: Result<(), String>)
    ensures
        match r {
            Ok(_) => p.id > 0,
            Err(m) => p.id == 0 && m@ == "id must be stated and it must be a positive number"@,
        },
{
    check_param_id(p.id)
}

/// What `search` demands of a request: a term.
pub fn check_search_params(p: &Parameters) -> (r: Result<(), String>)
    ensures
        match r {
            Ok(_) => p.search_term@.len() > 0,
            Err(m) => p.search_term@.len() == 0 && m@ == "term must be stated"@,
        },
{
    check_param_term(&p.search_term)
}

/// Whether a mandatory text is missing.
fn is_unstated(value: &String) -> (r: bool)
    ensures
        r == unstated(value@),
{
    proof {
        reveal_strlit("--");
        assert("--"@ =~= clear_sentinel());
    }
    value.as_str().is_empty() || same_text(value.as_str(), "--")
}

/// The first mandatory text that a request to create or update a record
/// leaves unstated, as the message that names it.
pub open spec fn create_fault(p: ParametersView) -> Option<Seq<char>> {
    if unstated(p.first_name) {
        Some("first name must be stated"@)
    } else if unstated(p.last_name) {
        Some("last name must be stated"@)
    } else if unstated(p.phone) {
        Some("phone number must be stated"@)
    } else {
        None
    }
}

/// What `create` and `update` demand of a request: first name, last name
/// and phone, in this order.
pub fn check_create_params(p: &Parameters) -> (r: Result<(), String>)
    ensures
        match r {
            Ok(_) => create_fault(p@) is None,
            Err(m) => create_fault(p@) == Some(m@),
        },
{
    if is_unstated(&p.first_name) {
        Err("first name must be stated".to_owned())
    } else if is_unstated(&p.last_name) {
        Err("last name must be stated".to_owned())
    } else if is_unstated(&p.phone) {
        Err("phone number must be stated".to_owned())
    } else {
        Ok(())
    }
}

/// The first thing that a request to update a record leaves unstated, as
/// the message that names it: the identifier, then what `create` demands.
pub open spec fn update_params_fault(p: ParametersView) -> Option<Seq<char>> {
    if p.id == 0 {
        Some("id must be stated and it must be a positive number"@)
    } else {
        create_fault(p)
    }
}

/// What `update` demands of a request: an identifier, then first name,
/// last name and phone.
pub fn check_update_params(p: &Parameters) -> (r: Result<(), String>)
    ensures
        match r {
            Ok(_) => update_params_fault(p@) is None,
            Err(m) => update_params_fault(p@) == Some(m@),
        },
{
    match check_param_id(p.id) {
        Err(message) => Err(message),
        Ok(()) => check_create_params(p),
    }
}

/// The usage text that goes with a refused request: that of the operation
/// asked for.
#[derive(Clone, Copy, Debug)]
pub enum Usage {
    Create,
    Update,
    Delete,
    Search,
}

/// What to do with a command line before any store is opened.
pub enum Plan {
    /// Report the fault and fail.
    Fail(String),
    /// Show the general help.
    Help,
    /// Open the store at the request's path and perform the request.
    Open(Parameters),
}

/// What to do with a command line, as mathematics sees it.
pub enum PlanView {
    Fail(Seq<char>),
    Help,
    Open(ParametersView),
}

impl View for Plan {
    type V = PlanView;

    open spec fn view(&self) -> PlanView {
        match self {
            Plan::Fail(message) => PlanView::Fail(message@),
            Plan::Help => PlanView::Help,
            Plan::Open(p) => PlanView::Open(p@),
        }
    }
}

/// How a request to the store ended.
pub enum Outcome {
    /// The request lacks what its operation demands; the store was not
    /// touched.
    Rejected { message: String, usage: Usage },
    /// The store could not do what was asked.
    Failed { message: String },
    /// The record as created.
    Created(Entry),
    /// The record as updated.
    Updated(Entry),
    /// The record that was deleted.
    Deleted(Entry),
    /// The records that match the search term.
    Found(Vec<Entry>),
}

/// How a request to the store ended, as mathematics sees it.
pub enum OutcomeView {
    Rejected { message: Seq<char>, usage: Usage },
    Failed { message: Seq<char> },
    Created(EntryView),
    Updated(EntryView),
    Deleted(EntryView),
    Found(Seq<EntryView>),
}

impl View for Outcome {
    type V = OutcomeView;

    open spec fn view(&self) -> OutcomeView {
        match self {
            Outcome::Rejected { message, usage } => OutcomeView::Rejected {
                message: message@,
                usage: *usage,
            },
            Outcome::Failed { message } => OutcomeView::Failed { message: message@ },
            Outcome::Created(e) => OutcomeView::Created(e@),
            Outcome::Updated(e) => OutcomeView::Updated(e@),
            Outcome::Deleted(e) => OutcomeView::Deleted(e@),
            Outcome::Found(entries) => OutcomeView::Found(entry_views(entries@)),
        }
    }
}

/// The operation works on the store.
pub open spec fn needs_store(operation: Operation) -> bool {
    operation is Create || operation is Update || operation is Delete || operation is Search
}

/// What a command line asks for: a command line that cannot be read, or
/// that names no command, fails; `help` needs no store; every other
/// command opens one.
pub open spec fn planned(words: Seq<Seq<char>>) -> PlanView {
    match read_arguments(words) {
        Err(e) => PlanView::Fail(argument_error_text(e)),
        Ok(p) => match p.operation {
            Operation::Help => PlanView::Help,
            Operation::Unset => PlanView::Fail("Unsupported command"@),
            _ => PlanView::Open(p),
        },
    }
}

/// The outcome tells of a change to the store, which is to be written to
/// the backing file.
pub open spec fn changes_store(outcome: OutcomeView) -> bool {
    outcome is Created || outcome is Updated || outcome is Deleted
}

/// The request is one that gives a new record its identifier: a `create`
/// that states what it must and whose record can be written.
pub open spec fn takes_new_id(p: ParametersView) -> bool {
    p.operation is Create && create_fault(p) is None && writable(entry_of(p))
}

/// How a request ends on a store with the given records at the time `now`,
/// and the records afterwards. The request is checked first, and a request
/// that is refused leaves the store alone; so does one that the store
/// cannot do.
pub open spec fn respond(p: ParametersView, records: Seq<EntryView>, now: u64) -> (
    OutcomeView,
    Seq<EntryView>,
)
    recommends
        needs_store(p.operation),
{
    match p.operation {
        Operation::Create => match create_fault(p) {
            Some(message) => (OutcomeView::Rejected { message, usage: Usage::Create }, records),
            None => if writable(entry_of(p)) {
                (
                    OutcomeView::Created(created(records, entry_of(p))),
                    records.push(created(records, entry_of(p))),
                )
            } else {
                (OutcomeView::Failed { message: unwritable_text() }, records)
            },
        },
        Operation::Update => match update_params_fault(p) {
            Some(message) => (OutcomeView::Rejected { message, usage: Usage::Update }, records),
            None => match update_fault(records, p.id, entry_of(p)) {
                Some(message) => (OutcomeView::Failed { message }, records),
                None => (
                    OutcomeView::Updated(patched(lookup(records, p.id), entry_of(p), now)),
                    updated(records, p.id, entry_of(p), now),
                ),
            },
        },
        Operation::Delete => if p.id == 0 {
            (
                OutcomeView::Rejected {
                    message: "id must be stated and it must be a positive number"@,
                    usage: Usage::Delete,
                },
                records,
            )
        } else if has_id(records, p.id) {
            (OutcomeView::Deleted(lookup(records, p.id)), removed(records, p.id))
        } else {
            (OutcomeView::Failed { message: not_found_text(p.id) }, records)
        },
        _ => if p.search_term.len() == 0 {
            (
                OutcomeView::Rejected { message: "term must be stated"@, usage: Usage::Search },
                records,
            )
        } else {
            (OutcomeView::Found(search_result(records, p.search_term)), records)
        },
    }
}

impl Outcome {
    /// Whether the store has changed and is to be written to its backing
    /// file: so after a record was created, updated or deleted, and not
    /// else.
    pub fn needs_save(&self) -> (r: bool)
        ensures
            r == changes_store(self@),
    {
        match self {
            Outcome::Created(_) => true,
            Outcome::Updated(_) => true,
            Outcome::Deleted(_) => true,
            _ => false,
        }
    }
}

/// Whether the request gives a new record its identifier, for which the
/// store must have one left.
pub fn wants_new_id(p: &Parameters) -> (r: bool)
    ensures
        r == takes_new_id(p@),
{
    match p.operation {
        Operation::Create => {
            match check_create_params(p) {
                Err(_) => false,
                Ok(()) => {
                    let draft = Entry {
                        id: p.id,
                        first_name: p.first_name.clone(),
                        last_name: p.last_name.clone(),
                        phone: p.phone.clone(),
                        address: p.address.clone(),
                        e_mail: p.e_mail.clone(),
                        created_at: 0,
                        updated_at: 0,
                    };
                    is_writable(&draft)
                },
            }
        },
        _ => false,
    }
}

/// Decides what to do with a command line.
pub fn plan(args: Vec<String>) -> (r: Plan)
    ensures
        r@ == planned(views(args@)),
        r matches Plan::Open(p) ==> needs_store(p.operation),
{
    match parse_arguments(args) {
        Err(message) => Plan::Fail(message),
        Ok(p) => match p.operation {
            Operation::Help => Plan::Help,
            Operation::Unset => Plan::Fail("Unsupported command".to_owned()),
            _ => Plan::Open(p),
        },
    }
}

/// Performs a request on the store as of the time `now`.
pub fn perform_at(p: Parameters, db: &mut FileDB, now: u64) -> (r: Outcome)
    requires
        needs_store(p.operation),
        takes_new_id(p@) ==> max_id(old(db).records()) < u16::MAX,
    ensures
        (r@, final(db).records()) == respond(p@, old(db).records(), now),
        !changes_store(r@) ==> final(db).records() == old(db).records(),
        final(db).path_text() == old(db).path_text(),
{
    match p.operation {
        Operation::Create => {
            match check_create_params(&p) {
                Err(message) => return Outcome::Rejected { message, usage: Usage::Create },
                Ok(()) => {},
            }
            match db.create(p.to_entry()) {
                Ok(entry) => Outcome::Created(entry),
                Err(message) => Outcome::Failed { message },
            }
        },
        Operation::Update => {
            match check_update_params(&p) {
                Err(message) => return Outcome::Rejected { message, usage: Usage::Update },
                Ok(()) => {},
            }
            let id = p.id;
            match db.update_at(id, p.to_entry(), now) {
                Ok(entry) => Outcome::Updated(entry),
                Err(message) => Outcome::Failed { message },
            }
        },
        Operation::Delete => {
            match check_delete_params(&p) {
                Err(message) => return Outcome::Rejected { message, usage: Usage::Delete },
                Ok(()) => {},
            }
            match db.delete(p.id) {
                Ok(entry) => Outcome::Deleted(entry),
                Err(message) => Outcome::Failed { message },
            }
        },
        _ => {
            match check_search_params(&p) {
                Err(message) => return Outcome::Rejected { message, usage: Usage::Search },
                Ok(()) => {},
            }
            Outcome::Found(db.search(p.search_term))
        },
    }
}

/// Performs a request on the store, an update as of the time that the
/// clock shows.
pub fn perform(p: Parameters, db: &mut FileDB) -> (r: Outcome)
    requires
        needs_store(p.operation),
        takes_new_id(p@) ==> max_id(old(db).records()) < u16::MAX,
    ensures
        !changes_store(r@) ==> final(db).records() == old(db).records(),
        exists|now: u64| (r@, final(db).records()) == #[trigger] respond(
            p@,
            old(db).records(),
            now,
        ),
        final(db).path_text() == old(db).path_text(),
{
    let now = unix_now();
    perform_at(p, db, now)
}

} // verus!
