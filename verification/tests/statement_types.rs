use gresql::statement_type::StatementType;

#[test]
fn parse_statement_types() {
    let invalid_characters: Vec<char> = vec![';', 'a', '\n', '*'];
    for c in invalid_characters {
        assert!(StatementType::try_from(c).is_err());
    }

    let invalid_strings: Vec<&str> = vec!["alter", "declare", "apply", "grant", ""];
    for s in invalid_strings {
        assert!(StatementType::try_from(s.to_string()).is_err());
    }
}

#[test]
fn selector_characters_resolve() {
    assert_eq!(StatementType::try_from('s'), Ok(StatementType::Select));
    assert_eq!(StatementType::try_from('i'), Ok(StatementType::Insert));
    assert_eq!(StatementType::try_from('u'), Ok(StatementType::Update));
    assert_eq!(StatementType::try_from('d'), Ok(StatementType::Delete));
    assert_eq!(StatementType::try_from('m'), Ok(StatementType::Merge));
    assert_eq!(StatementType::try_from('S'), Err(()));
    assert_eq!(StatementType::from_char('u'), Some(StatementType::Update));
    assert_eq!(StatementType::from_char('x'), None);
}

#[test]
fn keywords_resolve() {
    assert_eq!(StatementType::try_from("select".to_string()), Ok(StatementType::Select));
    assert_eq!(StatementType::try_from("insert".to_string()), Ok(StatementType::Insert));
    assert_eq!(StatementType::try_from("update".to_string()), Ok(StatementType::Update));
    assert_eq!(StatementType::try_from("delete".to_string()), Ok(StatementType::Delete));
    assert_eq!(StatementType::try_from("merge".to_string()), Ok(StatementType::Merge));
    assert_eq!(StatementType::try_from("SELECT".to_string()), Err(()));
    assert_eq!(StatementType::try_from("selects".to_string()), Err(()));
    assert_eq!(StatementType::try_from("merg".to_string()), Err(()));
}

#[test]
fn display_names_are_upper_case() {
    assert_eq!(StatementType::Select.to_string(), "SELECT");
    assert_eq!(StatementType::Insert.to_string(), "INSERT");
    assert_eq!(StatementType::Update.to_string(), "UPDATE");
    assert_eq!(StatementType::Delete.to_string(), "DELETE");
    assert_eq!(StatementType::Merge.to_string(), "MERGE");
}
