use employee_registry::dispatch::{process_line, CommandOutcome};
use employee_registry::registry::Registry;

#[test]
fn add_then_show_department() {
    let mut registry = Registry::new();

    match process_line(&mut registry, "Add Alice to Engineering") {
        CommandOutcome::Added { employee, department } => {
            assert_eq!(employee, "Alice");
            assert_eq!(department, "Engineering");
        }
        other => panic!("expected an add outcome, got {:?}", other),
    }

    match process_line(&mut registry, "Show employees from Engineering") {
        CommandOutcome::DepartmentEmployees { department, employees } => {
            assert_eq!(department, "Engineering");
            assert_eq!(employees, vec!["Alice".to_owned()]);
        }
        other => panic!("expected a department listing, got {:?}", other),
    }

    let entries = registry.list_all();
    assert_eq!(entries.len(), 1);
    assert_eq!(entries[0].name, "Engineering");
    assert_eq!(entries[0].employees, vec!["Alice".to_owned()]);
}

#[test]
fn show_all_on_empty_registry() {
    let mut registry = Registry::new();
    match process_line(&mut registry, "Show all employees") {
        CommandOutcome::AllDepartments { departments } => {
            assert!(departments.is_empty());
        }
        other => panic!("expected the full listing, got {:?}", other),
    }
    assert!(registry.list_all().is_empty());
}

#[test]
fn invalid_line_leaves_registry_unchanged() {
    let mut registry = Registry::new();
    registry.add_employee("Alice".to_owned(), "Engineering".to_owned());
    match process_line(&mut registry, "banana") {
        CommandOutcome::Rejected { message } => {
            assert_eq!(message, "invalid command");
        }
        other => panic!("expected a rejection, got {:?}", other),
    }
    let entries = registry.list_all();
    assert_eq!(entries.len(), 1);
    assert_eq!(entries[0].name, "Engineering");
    assert_eq!(entries[0].employees, vec!["Alice".to_owned()]);
}

#[test]
fn two_adds_to_same_department() {
    let mut registry = Registry::new();
    process_line(&mut registry, "Add Bob to Sales");
    process_line(&mut registry, "Add Carol to Sales");
    match process_line(&mut registry, "Show employees from Sales") {
        CommandOutcome::DepartmentEmployees { department, employees } => {
            assert_eq!(department, "Sales");
            assert_eq!(employees, vec!["Bob".to_owned(), "Carol".to_owned()]);
        }
        other => panic!("expected a department listing, got {:?}", other),
    }
}

#[test]
fn query_for_absent_department_reports_not_found() {
    let mut registry = Registry::new();
    process_line(&mut registry, "Add Alice to Engineering");
    match process_line(&mut registry, "Show employees from Sales") {
        CommandOutcome::NoSuchDepartment { department } => {
            assert_eq!(department, "Sales");
        }
        other => panic!("expected a not-found outcome, got {:?}", other),
    }
}

#[test]
fn show_all_reports_every_department() {
    let mut registry = Registry::new();
    process_line(&mut registry, "Add Alice to Engineering");
    process_line(&mut registry, "Add Bob to Sales");
    match process_line(&mut registry, "Show all employees") {
        CommandOutcome::AllDepartments { departments } => {
            assert_eq!(departments.len(), 2);
            assert_eq!(departments[0].name, "Engineering");
            assert_eq!(departments[0].employees, vec!["Alice".to_owned()]);
            assert_eq!(departments[1].name, "Sales");
            assert_eq!(departments[1].employees, vec!["Bob".to_owned()]);
        }
        other => panic!("expected the full listing, got {:?}", other),
    }
}
