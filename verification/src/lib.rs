//! A small phonebook: contact records kept in a flat text file, with the
//! record codec, the record store and the command-line front end's rules.

pub mod cli;
pub mod clock;
pub mod db;
pub mod decimal;
pub mod entry;
pub mod laws;
pub mod store;
pub mod table;
pub mod text;

pub use cli::{
    check_create_params, check_delete_params, check_param_id, check_param_term,
    check_search_params, check_update_params, parse_arguments, Operation, Parameters,
};
pub use db::{FileDB, DB};
pub use entry::Entry;
