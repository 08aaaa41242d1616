use employee_registry::classify::{get_input_type, tokenize, ClassificationError, InputType};

#[test]
fn add_line_classifies() {
    let r = get_input_type("Add Alice to Engineering");
    assert_eq!(
        r.unwrap(),
        InputType::AddEmployee {
            employee: "Alice".to_owned(),
            department: "Engineering".to_owned(),
        }
    );
}

#[test]
fn show_department_line_classifies() {
    let r = get_input_type("Show employees from Engineering");
    assert_eq!(
        r.unwrap(),
        InputType::GetEmployeesByDepartment("Engineering".to_owned())
    );
}

#[test]
fn show_all_line_classifies() {
    let r = get_input_type("Show all employees");
    assert_eq!(r.unwrap(), InputType::GetAllEmployees);
}

#[test]
fn show_all_permits_trailing_content() {
    let r = get_input_type("Show all employees in the whole company");
    assert_eq!(r.unwrap(), InputType::GetAllEmployees);
}

#[test]
fn invalid_line_is_rejected() {
    let r = get_input_type("banana");
    assert_eq!(
        r.unwrap_err(),
        ClassificationError::InvalidCommand { message: "invalid command".to_owned() }
    );
}

#[test]
fn empty_line_is_rejected() {
    assert!(get_input_type("").is_err());
}

#[test]
fn short_add_line_is_rejected() {
    assert!(get_input_type("Add Bob to").is_err());
    assert!(get_input_type("Add to Sales").is_err());
}

#[test]
fn department_must_be_last_token() {
    assert!(get_input_type("Add Bob to Sales today").is_err());
    assert!(get_input_type("Show employees from Sales today").is_err());
}

#[test]
fn literal_tokens_are_case_sensitive() {
    assert!(get_input_type("add Bob to Sales").is_err());
    assert!(get_input_type("show all employees").is_err());
}

#[test]
fn extra_whitespace_between_tokens_is_accepted() {
    let r = get_input_type("Add   Bob \t to   Sales");
    assert_eq!(
        r.unwrap(),
        InputType::AddEmployee { employee: "Bob".to_owned(), department: "Sales".to_owned() }
    );
}

#[test]
fn classification_is_pure() {
    let line = "Add Alice to Engineering";
    assert_eq!(get_input_type(line), get_input_type(line));
    let bad = "banana";
    assert_eq!(get_input_type(bad), get_input_type(bad));
}

#[test]
fn tokenize_splits_on_whitespace() {
    assert_eq!(
        tokenize("Add Alice to Engineering"),
        vec![
            "Add".to_owned(),
            "Alice".to_owned(),
            "to".to_owned(),
            "Engineering".to_owned(),
        ]
    );
}

#[test]
fn tokenize_handles_empty_and_blank_input() {
    assert_eq!(tokenize(""), Vec::<String>::new());
    assert_eq!(tokenize(" \t "), Vec::<String>::new());
}

#[test]
fn tokenize_drops_leading_and_trailing_whitespace() {
    assert_eq!(tokenize("  a  b "), vec!["a".to_owned(), "b".to_owned()]);
}
