use phonebook::cli::{
    check_create_params, check_delete_params, check_param_id, check_param_term,
    check_search_params, parse_arguments, Operation, Parameters,
};

fn generate_create_params() -> Parameters {
    Parameters {
        id: 1,
        first_name: "John".to_string(),
        last_name: "Smith".to_string(),
        phone: "123".to_string(),
        operation: Operation::Create,
        address: "Wild west".to_string(),
        e_mail: "js@gmail.com".to_string(),
        database_path: "/some/path".to_string(),
        search_term: "".to_string(),
    }
}

fn words(list: &[&str]) -> Vec<String> {
    list.iter().map(|s| s.to_string()).collect()
}

#[test]
fn check_good_delete_params() {
    let p = generate_create_params();
    match check_create_params(&p) {
        Err(_msg) => panic!("This should be successful!"),
        Ok(()) => {}
    }
}

#[test]
fn fail_create_params_missing_first_name() {
    let mut p = generate_create_params();
    p.first_name = String::from("");
    match check_create_params(&p) {
        Ok(()) => panic!("This should fail!"),
        Err(msg) => assert_eq!("first name must be stated".to_string(), msg),
    }
}

#[test]
fn create_params_name_the_first_missing_field() {
    let mut p = generate_create_params();
    p.last_name = String::new();
    p.phone = String::new();
    assert_eq!(check_create_params(&p), Err("last name must be stated".to_string()));
    p.last_name = "Smith".to_string();
    assert_eq!(check_create_params(&p), Err("phone number must be stated".to_string()));
}

#[test]
fn create_params_refuse_the_clear_sentinel() {
    let mut p = generate_create_params();
    p.first_name = "--".to_string();
    assert_eq!(check_create_params(&p), Err("first name must be stated".to_string()));
    p.first_name = "John".to_string();
    p.last_name = "--".to_string();
    assert_eq!(check_create_params(&p), Err("last name must be stated".to_string()));
    p.last_name = "Smith".to_string();
    p.phone = "--".to_string();
    assert_eq!(check_create_params(&p), Err("phone number must be stated".to_string()));
    p.phone = "---".to_string();
    assert_eq!(check_create_params(&p), Ok(()));
    p.address = "--".to_string();
    p.e_mail = String::new();
    assert_eq!(check_create_params(&p), Ok(()));
}

#[test]
fn id_must_be_positive() {
    assert_eq!(
        check_param_id(0),
        Err("id must be stated and it must be a positive number".to_string())
    );
    assert_eq!(check_param_id(1), Ok(()));
    assert_eq!(check_param_id(u16::MAX), Ok(()));
    let mut p = generate_create_params();
    assert_eq!(check_delete_params(&p), Ok(()));
    p.id = 0;
    assert_eq!(
        check_delete_params(&p),
        Err("id must be stated and it must be a positive number".to_string())
    );
}

#[test]
fn term_must_be_stated() {
    assert_eq!(check_param_term(&String::new()), Err("term must be stated".to_string()));
    assert_eq!(check_param_term(&" ".to_string()), Ok(()));
    let mut p = generate_create_params();
    assert_eq!(check_search_params(&p), Err("term must be stated".to_string()));
    p.search_term = "Smith".to_string();
    assert_eq!(check_search_params(&p), Ok(()));
}

#[test]
fn default_parameters_are_blank() {
    let p = Parameters::default();
    assert!(matches!(p.operation, Operation::Unset));
    assert_eq!(p.id, 0);
    assert_eq!(p.database_path, "");
    assert_eq!(p.first_name, "");
    assert_eq!(p.last_name, "");
    assert_eq!(p.phone, "");
    assert_eq!(p.address, "");
    assert_eq!(p.e_mail, "");
    assert_eq!(p.search_term, "");
}

#[test]
fn to_entry_keeps_fields_and_zeroes_times() {
    let e = generate_create_params().to_entry();
    assert_eq!(e.id, 1);
    assert_eq!(e.first_name, "John");
    assert_eq!(e.last_name, "Smith");
    assert_eq!(e.phone, "123");
    assert_eq!(e.address, "Wild west");
    assert_eq!(e.e_mail, "js@gmail.com");
    assert_eq!(e.created_at, 0);
    assert_eq!(e.updated_at, 0);
}

#[test]
fn parse_short_parameters() {
    let p = parse_arguments(words(&[
        "phonebook", "create", "-d", "book.txt", "-f", "John", "-l", "Smith", "-p", "123", "-a",
        "My street 12a", "-e", "js@gmail.com", "-i", "7", "-t", "needle",
    ]))
    .unwrap();
    assert!(matches!(p.operation, Operation::Create));
    assert_eq!(p.database_path, "book.txt");
    assert_eq!(p.first_name, "John");
    assert_eq!(p.last_name, "Smith");
    assert_eq!(p.phone, "123");
    assert_eq!(p.address, "My street 12a");
    assert_eq!(p.e_mail, "js@gmail.com");
    assert_eq!(p.id, 7);
    assert_eq!(p.search_term, "needle");
}

#[test]
fn parse_long_parameters() {
    let p = parse_arguments(words(&[
        "phonebook", "db-path", "book.txt", "first-name", "John", "last-name", "Smith", "phone",
        "123", "address", "here", "e-mail", "a@b", "id", "+65535", "term", "x", "update",
    ]))
    .unwrap();
    assert!(matches!(p.operation, Operation::Update));
    assert_eq!(p.database_path, "book.txt");
    assert_eq!(p.first_name, "John");
    assert_eq!(p.last_name, "Smith");
    assert_eq!(p.phone, "123");
    assert_eq!(p.address, "here");
    assert_eq!(p.e_mail, "a@b");
    assert_eq!(p.id, 65535);
    assert_eq!(p.search_term, "x");
}

#[test]
fn parse_commands() {
    let op = |w: &str| parse_arguments(words(&["phonebook", w])).unwrap().operation;
    assert!(matches!(op("create"), Operation::Create));
    assert!(matches!(op("update"), Operation::Update));
    assert!(matches!(op("delete"), Operation::Delete));
    assert!(matches!(op("search"), Operation::Search));
    assert!(matches!(op("help"), Operation::Help));
    assert!(matches!(op("-h"), Operation::Help));
}

#[test]
fn parse_passes_over_the_program_name() {
    let p = parse_arguments(words(&["delete"])).unwrap();
    assert!(matches!(p.operation, Operation::Unset));
    let p = parse_arguments(Vec::new()).unwrap();
    assert!(matches!(p.operation, Operation::Unset));
    assert_eq!(p.id, 0);
}

#[test]
fn parse_later_words_override_earlier_ones() {
    let p = parse_arguments(words(&["x", "create", "-f", "A", "delete", "-f", "B"])).unwrap();
    assert!(matches!(p.operation, Operation::Delete));
    assert_eq!(p.first_name, "B");
}

#[test]
fn parse_takes_a_value_verbatim() {
    let p = parse_arguments(words(&["x", "-f", "create", "-l", "-f"])).unwrap();
    assert!(matches!(p.operation, Operation::Unset));
    assert_eq!(p.first_name, "create");
    assert_eq!(p.last_name, "-f");
}

#[test]
fn parse_reports_an_unknown_parameter() {
    let r = parse_arguments(words(&["x", "create", "--first", "John"]));
    assert_eq!(r.err(), Some("unknown parameter --first".to_string()));
    let r = parse_arguments(words(&["x", ""]));
    assert_eq!(r.err(), Some("unknown parameter ".to_string()));
}

#[test]
fn parse_reports_a_missing_value() {
    let r = parse_arguments(words(&["x", "create", "-f"]));
    assert_eq!(r.err(), Some("missing value for parameter -f".to_string()));
    let r = parse_arguments(words(&["x", "term"]));
    assert_eq!(r.err(), Some("missing value for parameter term".to_string()));
}

#[test]
fn parse_reports_a_bad_id_as_std_does() {
    for bad in ["", "abc", "-1", "65536", "+", "1 ", "99999x", "65535x"] {
        let r = parse_arguments(words(&["x", "-i", bad]));
        let expected = bad.parse::<u16>().unwrap_err().to_string();
        assert_eq!(r.err(), Some(expected), "id {:?}", bad);
    }
    let r = parse_arguments(words(&["x", "-i", "abc"]));
    assert_eq!(r.err(), Some("invalid digit found in string".to_string()));
    let r = parse_arguments(words(&["x", "-i", "65536"]));
    assert_eq!(r.err(), Some("number too large to fit in target type".to_string()));
    let r = parse_arguments(words(&["x", "-i", ""]));
    assert_eq!(r.err(), Some("cannot parse integer from empty string".to_string()));
}

#[test]
fn parse_stops_at_the_first_fault() {
    let r = parse_arguments(words(&["x", "-i", "abc", "bogus"]));
    assert_eq!(r.err(), Some("invalid digit found in string".to_string()));
    let r = parse_arguments(words(&["x", "bogus", "-i", "abc"]));
    assert_eq!(r.err(), Some("unknown parameter bogus".to_string()));
}
