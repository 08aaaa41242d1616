use employee_registry::registry::Registry;

#[test]
fn new_registry_is_empty() {
    let registry = Registry::new();
    assert!(registry.list_all().is_empty());
}

#[test]
fn missing_department_is_not_found() {
    let registry = Registry::new();
    assert!(registry.list_by_department("Engineering").is_none());
}

#[test]
fn added_employee_is_listed() {
    let mut registry = Registry::new();
    registry.add_employee("Alice".to_owned(), "Engineering".to_owned());
    let listed = registry.list_by_department("Engineering").unwrap();
    assert_eq!(listed, &vec!["Alice".to_owned()]);
}

#[test]
fn added_employee_is_last() {
    let mut registry = Registry::new();
    registry.add_employee("Alice".to_owned(), "Engineering".to_owned());
    registry.add_employee("Dana".to_owned(), "Engineering".to_owned());
    let listed = registry.list_by_department("Engineering").unwrap();
    assert_eq!(listed.last().unwrap(), "Dana");
}

#[test]
fn duplicate_adds_are_kept() {
    let mut registry = Registry::new();
    registry.add_employee("Alice".to_owned(), "Engineering".to_owned());
    registry.add_employee("Alice".to_owned(), "Engineering".to_owned());
    let listed = registry.list_by_department("Engineering").unwrap();
    assert_eq!(listed, &vec!["Alice".to_owned(), "Alice".to_owned()]);
}

#[test]
fn two_adds_to_same_department_keep_order() {
    let mut registry = Registry::new();
    registry.add_employee("Bob".to_owned(), "Sales".to_owned());
    registry.add_employee("Carol".to_owned(), "Sales".to_owned());
    let listed = registry.list_by_department("Sales").unwrap();
    assert_eq!(listed, &vec!["Bob".to_owned(), "Carol".to_owned()]);
}

#[test]
fn three_adds_preserve_order() {
    let mut registry = Registry::new();
    registry.add_employee("E1".to_owned(), "Sales".to_owned());
    registry.add_employee("E2".to_owned(), "Sales".to_owned());
    registry.add_employee("E3".to_owned(), "Sales".to_owned());
    let listed = registry.list_by_department("Sales").unwrap();
    assert_eq!(listed, &vec!["E1".to_owned(), "E2".to_owned(), "E3".to_owned()]);
}

#[test]
fn departments_are_separate() {
    let mut registry = Registry::new();
    registry.add_employee("Alice".to_owned(), "Engineering".to_owned());
    registry.add_employee("Bob".to_owned(), "Sales".to_owned());
    assert_eq!(
        registry.list_by_department("Engineering").unwrap(),
        &vec!["Alice".to_owned()]
    );
    assert_eq!(registry.list_by_department("Sales").unwrap(), &vec!["Bob".to_owned()]);
    assert!(registry.list_by_department("Support").is_none());
}

#[test]
fn list_all_reports_every_entry() {
    let mut registry = Registry::new();
    registry.add_employee("Alice".to_owned(), "Engineering".to_owned());
    registry.add_employee("Bob".to_owned(), "Sales".to_owned());
    registry.add_employee("Carol".to_owned(), "Sales".to_owned());
    let entries = registry.list_all();
    assert_eq!(entries.len(), 2);
    assert_eq!(entries[0].name, "Engineering");
    assert_eq!(entries[0].employees, vec!["Alice".to_owned()]);
    assert_eq!(entries[1].name, "Sales");
    assert_eq!(entries[1].employees, vec!["Bob".to_owned(), "Carol".to_owned()]);
}

#[test]
fn registry_stays_well_formed() {
    let mut registry = Registry::new();
    assert!(registry.is_well_formed());
    registry.add_employee("Alice".to_owned(), "Engineering".to_owned());
    registry.add_employee("Bob".to_owned(), "Engineering".to_owned());
    registry.add_employee("Carol".to_owned(), "Sales".to_owned());
    assert!(registry.is_well_formed());
}
