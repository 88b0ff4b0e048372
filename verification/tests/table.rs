use phonebook::table::{
    all_entries, entry_as_lines, entry_field, entry_line, single_entry, table_header,
    table_separator,
};
use phonebook::Entry;

fn person(id: u16, first_name: &str, last_name: &str, phone: &str, address: &str, e_mail: &str) -> Entry {
    Entry {
        id,
        first_name: first_name.to_string(),
        last_name: last_name.to_string(),
        phone: phone.to_string(),
        address: address.to_string(),
        e_mail: e_mail.to_string(),
        created_at: 0,
        updated_at: 0,
    }
}

fn plain_field(value: &str, line_number: usize, available_width: usize) -> (String, bool) {
    if value.len() <= available_width * line_number {
        (format!("{:<available_width$}", " "), false)
    } else if value.len() > available_width * (line_number + 1) {
        let sub_str: String =
            value.chars().skip(available_width * line_number).take(available_width).collect();
        (format!("{}", sub_str), true)
    } else {
        let sub_str: String = value
            .chars()
            .skip(available_width * line_number)
            .take(value.len() - (available_width * line_number))
            .collect();
        (format!("{:<available_width$}", sub_str), false)
    }
}

#[test]
fn field_fills_its_cell() {
    assert_eq!(entry_field("John", 0, 10), ("John      ".to_string(), false));
    assert_eq!(entry_field("John", 1, 10), ("          ".to_string(), false));
    assert_eq!(entry_field("", 0, 5), ("     ".to_string(), false));
    assert_eq!(entry_field("12345", 0, 5), ("12345".to_string(), false));
}

#[test]
fn field_wraps_over_rows() {
    assert_eq!(entry_field("abcdefghijkl", 0, 5), ("abcde".to_string(), true));
    assert_eq!(entry_field("abcdefghijkl", 1, 5), ("fghij".to_string(), true));
    assert_eq!(entry_field("abcdefghijkl", 2, 5), ("kl   ".to_string(), false));
    assert_eq!(entry_field("abcdefghijkl", 3, 5), ("     ".to_string(), false));
    assert_eq!(entry_field("abcdefghij", 1, 5), ("fghij".to_string(), false));
    assert_eq!(entry_field("abcdefghij", 2, 5), ("     ".to_string(), false));
}

#[test]
fn field_of_width_zero() {
    assert_eq!(entry_field("", 0, 0), (" ".to_string(), false));
    assert_eq!(entry_field("abc", 0, 0), ("".to_string(), true));
    assert_eq!(entry_field("abc", 7, 0), ("".to_string(), true));
}

#[test]
fn field_is_measured_in_bytes_and_cut_in_characters() {
    assert_eq!(entry_field("éé", 0, 5), ("éé   ".to_string(), false));
    assert_eq!(entry_field("ééé", 0, 5), ("ééé".to_string(), true));
    assert_eq!(entry_field("ééé", 1, 5), ("     ".to_string(), false));
    assert_eq!(entry_field("ééééé", 1, 5), ("     ".to_string(), false));
}

#[test]
fn field_as_plain_formatting_does() {
    let values = [
        "", "a", "John", "abcde", "abcdef", "abcdefghij", "abcdefghijk", "grüße aus köln",
        "日本語のテキスト", "My street 12a, 12345 Some Town, Some Country",
    ];
    for value in values {
        for width in [0usize, 1, 2, 5, 10, 20] {
            for line in 0..12usize {
                assert_eq!(
                    entry_field(value, line, width),
                    plain_field(value, line, width),
                    "value {:?} line {} width {}",
                    value,
                    line,
                    width
                );
            }
        }
    }
}

#[test]
fn line_of_a_short_record() {
    let e = person(1, "John", "Smith", "555", "", "");
    let expected =
        "|1    |John      |Smith          |555            |                    |                    |";
    assert_eq!(entry_line(&e, 0), (expected.to_string(), false));
    assert_eq!(expected.len(), table_separator().len());
    let blank =
        "|     |          |               |               |                    |                    |";
    assert_eq!(entry_line(&e, 1), (blank.to_string(), false));
}

#[test]
fn lines_of_a_long_record() {
    let e = person(
        65535,
        "Maximilian-Alexander",
        "Smith",
        "555",
        "My street 12a, 12345 Some Town",
        "js@gmail.com",
    );
    let rows = entry_as_lines(&e);
    assert_eq!(
        rows,
        vec![
            "|65535|Maximilian|Smith          |555            |My street 12a, 12345|js@gmail.com        |"
                .to_string(),
            "|     |-Alexander|               |               | Some Town          |                    |"
                .to_string(),
        ]
    );
    assert_eq!(entry_line(&e, 0).1, true);
    assert_eq!(entry_line(&e, 1).1, false);
}

#[test]
fn lines_end_with_the_longest_field() {
    let e = person(1, "a", "b", "c", "", "0123456789012345678901234567890123456789x");
    let rows = entry_as_lines(&e);
    assert_eq!(rows.len(), 3);
    assert_eq!(person(1, "a", "b", "c", "", "0123456789012345678901234567890123456789").e_mail.len(), 40);
    assert_eq!(entry_as_lines(&person(1, "a", "b", "c", "", "0123456789012345678901234567890123456789")).len(), 2);
    assert_eq!(entry_as_lines(&person(0, "", "", "", "", "")).len(), 1);
}

#[test]
fn lines_as_plain_formatting_does() {
    let people = [
        person(1, "John", "Smith", "555", "", ""),
        person(12345, "Jörg-Günther", "Müller-Lüdenscheidt", "+49 30 1234 5678 90", "Hauptstraße 1, 10115 Berlin, Deutschland", "joerg.guenther@mueller-luedenscheidt.example"),
        person(0, "", "", "", "", ""),
    ];
    for e in people.iter() {
        let mut expected: Vec<String> = Vec::new();
        let mut i = 0;
        loop {
            let cells = [
                plain_field(&format!("{}", e.id), i, 5),
                plain_field(&e.first_name, i, 10),
                plain_field(&e.last_name, i, 15),
                plain_field(&e.phone, i, 15),
                plain_field(&e.address, i, 20),
                plain_field(&e.e_mail, i, 20),
            ];
            let mut line = String::from("|");
            let mut more = false;
            for (text, has_more) in cells.iter() {
                line.push_str(text);
                line.push('|');
                more = more || *has_more;
            }
            expected.push(line);
            if !more {
                break;
            }
            i += 1;
        }
        assert_eq!(entry_as_lines(e), expected);
    }
}

#[test]
fn table_of_no_entries() {
    assert_eq!(all_entries(&Vec::new()), vec!["No entries to show".to_string()]);
}

#[test]
fn table_of_entries() {
    let entries = vec![
        person(1, "John", "Smith", "555", "", ""),
        person(2, "Jane", "Doe", "777", "A street that is long enough to wrap", ""),
    ];
    let separator =
        "+-----+----------+---------------+---------------+--------------------+--------------------+";
    let header =
        "| ID  |First name|   Last name   |  Phone book   |       Address      |       E-mail       |";
    assert_eq!(table_separator(), separator);
    assert_eq!(table_header(), header);
    assert_eq!(
        all_entries(&entries),
        vec![
            separator.to_string(),
            header.to_string(),
            separator.to_string(),
            "|1    |John      |Smith          |555            |                    |                    |"
                .to_string(),
            "|2    |Jane      |Doe            |777            |A street that is lon|                    |"
                .to_string(),
            "|     |          |               |               |g enough to wrap    |                    |"
                .to_string(),
            separator.to_string(),
        ]
    );
}

#[test]
fn single_entry_lists_the_fields() {
    let e = person(7, "John", "Smith", "555", "My street 12a", "js@gmail.com");
    assert_eq!(
        single_entry(&e),
        vec![
            "        ID: 7".to_string(),
            "First name: John".to_string(),
            " Last name: Smith".to_string(),
            "     Phone: 555".to_string(),
            "   Address: My street 12a".to_string(),
            "    E-mail: js@gmail.com".to_string(),
        ]
    );
}
