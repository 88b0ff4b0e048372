use phonebook::cli::{
    check_update_params, perform, perform_at, plan, wants_new_id, Operation, Outcome, Parameters,
    Plan, Usage,
};
use phonebook::{FileDB, DB};

fn words(list: &[&str]) -> Vec<String> {
    list.iter().map(|s| s.to_string()).collect()
}

fn request(list: &[&str]) -> Parameters {
    match plan(words(list)) {
        Plan::Open(p) => p,
        _ => panic!("this command line should open a store"),
    }
}

fn store() -> FileDB {
    let content = "1;John;Smith;555;Elm street;js@gmail.com;11;12\n2;Jane;Doe;777;;;0;0";
    FileDB::new("book.txt".to_string(), Ok(content.to_string())).unwrap()
}

#[test]
fn plan_fails_on_a_bad_command_line() {
    match plan(words(&["phonebook", "create", "--what"])) {
        Plan::Fail(message) => assert_eq!(message, "unknown parameter --what"),
        _ => panic!("this command line should fail"),
    }
    match plan(words(&["phonebook", "delete", "-i"])) {
        Plan::Fail(message) => assert_eq!(message, "missing value for parameter -i"),
        _ => panic!("this command line should fail"),
    }
}

#[test]
fn plan_fails_without_a_command() {
    for line in [&["phonebook"][..], &[][..], &["phonebook", "-f", "John"][..]] {
        match plan(words(line)) {
            Plan::Fail(message) => assert_eq!(message, "Unsupported command"),
            _ => panic!("this command line should fail"),
        }
    }
}

#[test]
fn plan_shows_help_without_a_store() {
    assert!(matches!(plan(words(&["phonebook", "help"])), Plan::Help));
    assert!(matches!(plan(words(&["phonebook", "-h", "-d", "nowhere"])), Plan::Help));
    assert!(matches!(plan(words(&["phonebook", "create", "-h"])), Plan::Help));
}

#[test]
fn plan_opens_a_store_for_the_other_commands() {
    let p = request(&["phonebook", "search", "-t", "Smith", "-d", "book.txt"]);
    assert!(matches!(p.operation, Operation::Search));
    assert_eq!(p.database_path, "book.txt");
    assert_eq!(p.search_term, "Smith");
    assert!(matches!(request(&["x", "create"]).operation, Operation::Create));
    assert!(matches!(request(&["x", "update"]).operation, Operation::Update));
    assert!(matches!(request(&["x", "delete"]).operation, Operation::Delete));
}

#[test]
fn perform_create() {
    let mut db = store();
    let p = request(&["x", "create", "-f", "Jim", "-l", "Beam", "-p", "1", "-i", "9"]);
    match perform(p, &mut db) {
        Outcome::Created(e) => {
            assert_eq!(e.id, 3);
            assert_eq!(e.first_name, "Jim");
            assert_eq!(e.created_at, 0);
            assert_eq!(e.updated_at, 0);
            assert_eq!(db.read_by_id(3), Some(e));
        }
        _ => panic!("the record should have been created"),
    }
    assert_eq!(db.read_all().len(), 3);
}

#[test]
fn perform_create_refuses_a_missing_name() {
    let mut db = store();
    let p = request(&["x", "create", "-l", "Beam", "-p", "1"]);
    match perform(p, &mut db) {
        Outcome::Rejected { message, usage } => {
            assert_eq!(message, "first name must be stated");
            assert!(matches!(usage, Usage::Create));
        }
        _ => panic!("the request should have been refused"),
    }
    assert_eq!(db.read_all().len(), 2);
}

#[test]
fn perform_update() {
    let mut db = store();
    let p = request(&["x", "update", "-i", "1", "-f", "Jim", "-l", "Beam", "-p", "1", "-a", "--"]);
    match perform_at(p, &mut db, 1700000000) {
        Outcome::Updated(e) => {
            assert_eq!(e.id, 1);
            assert_eq!(e.first_name, "Jim");
            assert_eq!(e.last_name, "Beam");
            assert_eq!(e.phone, "1");
            assert_eq!(e.address, "");
            assert_eq!(e.e_mail, "");
            assert_eq!(e.created_at, 11);
            assert_eq!(e.updated_at, 1700000000);
            assert_eq!(db.read_by_id(1), Some(e));
        }
        _ => panic!("the record should have been updated"),
    }
}

#[test]
fn perform_update_by_the_clock() {
    let mut db = store();
    let p = request(&["x", "update", "-i", "2", "-f", "Jim", "-l", "Beam", "-p", "1"]);
    match perform(p, &mut db) {
        Outcome::Updated(e) => assert!(e.updated_at >= 1_600_000_000),
        _ => panic!("the record should have been updated"),
    }
}

#[test]
fn perform_update_refuses_with_the_usage_of_update() {
    let mut db = store();
    let p = request(&["x", "update", "-i", "1", "-f", "Jim", "-l", "--", "-p", "1"]);
    match perform(p, &mut db) {
        Outcome::Rejected { message, usage } => {
            assert_eq!(message, "last name must be stated");
            assert!(matches!(usage, Usage::Update));
        }
        _ => panic!("the request should have been refused"),
    }
    assert_eq!(db.read_by_id(1).unwrap().first_name, "John");
}

#[test]
fn perform_update_demands_an_id() {
    let mut db = store();
    let p = request(&["x", "update", "-f", "Jim", "-l", "Beam", "-p", "1"]);
    match perform(p, &mut db) {
        Outcome::Rejected { message, usage } => {
            assert_eq!(message, "id must be stated and it must be a positive number");
            assert!(matches!(usage, Usage::Update));
        }
        _ => panic!("the request should have been refused"),
    }
    let p = request(&["x", "update", "-l", "Beam"]);
    match perform(p, &mut db) {
        Outcome::Rejected { message, .. } => {
            assert_eq!(message, "id must be stated and it must be a positive number")
        }
        _ => panic!("the request should have been refused"),
    }
    assert_eq!(db.content(), store().content());
}

#[test]
fn update_params_name_the_first_missing_thing() {
    let p = request(&["x", "update", "-i", "3", "-f", "Jim", "-l", "Beam", "-p", "1"]);
    assert_eq!(check_update_params(&p), Ok(()));
    let p = request(&["x", "update", "-f", "Jim", "-l", "Beam", "-p", "1"]);
    assert_eq!(
        check_update_params(&p),
        Err("id must be stated and it must be a positive number".to_string())
    );
    let p = request(&["x", "update", "-i", "3", "-l", "Beam", "-p", "1"]);
    assert_eq!(check_update_params(&p), Err("first name must be stated".to_string()));
    let p = request(&["x", "update", "-i", "3", "-f", "Jim", "-l", "Beam"]);
    assert_eq!(check_update_params(&p), Err("phone number must be stated".to_string()));
}

#[test]
fn perform_update_of_an_unknown_id() {
    let mut db = store();
    let p = request(&["x", "update", "-i", "9", "-f", "Jim", "-l", "Beam", "-p", "1"]);
    match perform(p, &mut db) {
        Outcome::Failed { message } => assert_eq!(message, "could not find entry with ID 9"),
        _ => panic!("the request should have failed"),
    }
    assert_eq!(db.content(), store().content());
}

#[test]
fn perform_create_refuses_a_separator() {
    let mut db = store();
    for bad in ["Jo;hn", "Jo\nhn", ";", "\n"] {
        let p = request(&["x", "create", "-f", bad, "-l", "Beam", "-p", "1"]);
        match perform(p, &mut db) {
            Outcome::Failed { message } => {
                assert_eq!(message, "field values must not contain ';' or a line break")
            }
            _ => panic!("the request should have failed"),
        }
        let p = request(&["x", "create", "-f", "Jim", "-l", "Beam", "-p", "1", "-e", bad]);
        assert!(matches!(perform(p, &mut db), Outcome::Failed { .. }));
    }
    assert_eq!(db.content(), store().content());
}

#[test]
fn perform_update_refuses_a_separator() {
    let mut db = store();
    let p = request(&["x", "update", "-i", "1", "-f", "Jim", "-l", "Beam", "-p", "1", "-a", "a;b"]);
    match perform(p, &mut db) {
        Outcome::Failed { message } => {
            assert_eq!(message, "field values must not contain ';' or a line break")
        }
        _ => panic!("the request should have failed"),
    }
    let p = request(&["x", "update", "-i", "9", "-f", "Jim", "-l", "Be\nam", "-p", "1"]);
    match perform(p, &mut db) {
        Outcome::Failed { message } => assert_eq!(message, "could not find entry with ID 9"),
        _ => panic!("the request should have failed"),
    }
    assert_eq!(db.content(), store().content());
}

#[test]
fn only_a_change_needs_to_be_saved() {
    let mut db = store();
    let created = perform(request(&["x", "create", "-f", "Jim", "-l", "Beam", "-p", "1"]), &mut db);
    assert!(matches!(created, Outcome::Created(_)));
    assert!(created.needs_save());
    let updated = perform(
        request(&["x", "update", "-i", "1", "-f", "Jim", "-l", "Beam", "-p", "1"]),
        &mut db,
    );
    assert!(matches!(updated, Outcome::Updated(_)));
    assert!(updated.needs_save());
    let deleted = perform(request(&["x", "delete", "-i", "1"]), &mut db);
    assert!(matches!(deleted, Outcome::Deleted(_)));
    assert!(deleted.needs_save());
    let before = db.content();
    let found = perform(request(&["x", "search", "-t", "J"]), &mut db);
    assert!(!found.needs_save());
    let refused = perform(request(&["x", "create", "-l", "Beam"]), &mut db);
    assert!(matches!(refused, Outcome::Rejected { .. }));
    assert!(!refused.needs_save());
    let failed = perform(request(&["x", "delete", "-i", "77"]), &mut db);
    assert!(matches!(failed, Outcome::Failed { .. }));
    assert!(!failed.needs_save());
    assert_eq!(db.content(), before);
}

#[test]
fn a_refused_create_needs_no_identifier() {
    let content = "65535;John;Smith;555;;;0;0";
    let mut db = FileDB::new("book.txt".to_string(), Ok(content.to_string())).unwrap();
    assert_eq!(db.largest_id(), u16::MAX);
    let p = request(&["x", "create", "-l", "Beam", "-p", "1"]);
    assert!(!wants_new_id(&p));
    match perform(p, &mut db) {
        Outcome::Rejected { message, usage } => {
            assert_eq!(message, "first name must be stated");
            assert!(matches!(usage, Usage::Create));
        }
        _ => panic!("the request should have been refused"),
    }
    let p = request(&["x", "create", "-f", "Ji;m", "-l", "Beam", "-p", "1"]);
    assert!(!wants_new_id(&p));
    assert!(matches!(perform(p, &mut db), Outcome::Failed { .. }));
    assert_eq!(db.content(), content);
    assert!(wants_new_id(&request(&["x", "create", "-f", "Jim", "-l", "Beam", "-p", "1"])));
    assert!(!wants_new_id(&request(&["x", "update", "-i", "1", "-f", "Jim", "-l", "Beam", "-p", "1"])));
    assert!(!wants_new_id(&request(&["x", "delete", "-i", "1"])));
}

#[test]
fn perform_delete() {
    let mut db = store();
    match perform(request(&["x", "delete", "-i", "1"]), &mut db) {
        Outcome::Deleted(e) => assert_eq!(e.first_name, "John"),
        _ => panic!("the record should have been deleted"),
    }
    assert_eq!(db.read_all().len(), 1);
    match perform(request(&["x", "delete", "-i", "1"]), &mut db) {
        Outcome::Failed { message } => assert_eq!(message, "could not find entry with ID 1"),
        _ => panic!("the request should have failed"),
    }
    match perform(request(&["x", "delete"]), &mut db) {
        Outcome::Rejected { message, usage } => {
            assert_eq!(message, "id must be stated and it must be a positive number");
            assert!(matches!(usage, Usage::Delete));
        }
        _ => panic!("the request should have been refused"),
    }
    assert_eq!(db.read_all().len(), 1);
}

#[test]
fn perform_search() {
    let mut db = store();
    match perform(request(&["x", "search", "-t", "Elm"]), &mut db) {
        Outcome::Found(entries) => {
            assert_eq!(entries.len(), 1);
            assert_eq!(entries[0].id, 1);
        }
        _ => panic!("the search should have run"),
    }
    match perform(request(&["x", "search", "-t", "nothing"]), &mut db) {
        Outcome::Found(entries) => assert_eq!(entries.len(), 0),
        _ => panic!("the search should have run"),
    }
    match perform(request(&["x", "search"]), &mut db) {
        Outcome::Rejected { message, usage } => {
            assert_eq!(message, "term must be stated");
            assert!(matches!(usage, Usage::Search));
        }
        _ => panic!("the request should have been refused"),
    }
}
