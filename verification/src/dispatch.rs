//! Dispatch: applying one classified line to the registry.
//!
//! [`process_line`] is the decision core of the interpreter loop: it
//! classifies a trimmed line and performs the corresponding registry
//! mutation or query, returning everything the caller needs to render the
//! result. Reading lines and printing stay with the caller.

use vstd::prelude::*;
use crate::classify::{
    get_input_type,
    is_add_command,
    is_show_all_command,
    is_show_department_command,
    invalid_command_message,
    spec_tokens,
    ClassificationError,
    InputType,
};
use crate::registry::{entries_models, spec_add, DepartmentEntry, Registry};

verus! {

/// What processing one line did, carrying the data to render.
#[derive(Debug)]
pub enum CommandOutcome {
    /// The employee was added to the department.
    Added { employee: String, department: String },
    /// The department exists and holds these employees, in order.
    DepartmentEmployees { department: String, employees: Vec<String> },
    /// The queried department has no employees registered.
    NoSuchDepartment { department: String },
    /// The full contents of the registry, entry for entry.
    AllDepartments { departments: Vec<DepartmentEntry> },
    /// The line matched no command shape; the registry is untouched.
    Rejected { message: String },
}

/// Classifies `line` and applies the resulting command to `registry`: an add
/// mutates it, the two queries and a rejected line leave it unchanged, and
/// the outcome reports exactly what the command found or did.
pub fn process_line(registry: &mut Registry, line: &str) -> (outcome: CommandOutcome)
    requires
        old(registry).wf(),
    ensures
        final(registry).wf(),
        ({
            let t = spec_tokens(line@);
            match outcome {
                CommandOutcome::Added { employee, department } => {
                    &&& is_add_command(line@)
                    &&& employee@ == t[1]
                    &&& department@ == t[3]
                    &&& final(registry).as_map() == spec_add(old(registry).as_map(), t[3], t[1])
                },
                CommandOutcome::DepartmentEmployees { department, employees } => {
                    &&& !is_add_command(line@)
                    &&& is_show_department_command(line@)
                    &&& department@ == t[3]
                    &&& *final(registry) == *old(registry)
                    &&& old(registry).contains_department(t[3])
                    &&& employees.deep_view() == old(registry).as_map()[t[3]]
                },
                CommandOutcome::NoSuchDepartment { department } => {
                    &&& !is_add_command(line@)
                    &&& is_show_department_command(line@)
                    &&& department@ == t[3]
                    &&& *final(registry) == *old(registry)
                    &&& !old(registry).contains_department(t[3])
                },
                CommandOutcome::AllDepartments { departments } => {
                    &&& !is_add_command(line@)
                    &&& !is_show_department_command(line@)
                    &&& is_show_all_command(line@)
                    &&& *final(registry) == *old(registry)
                    &&& entries_models(departments@) == old(registry).models()
                },
                CommandOutcome::Rejected { message } => {
                    &&& !is_add_command(line@)
                    &&& !is_show_department_command(line@)
                    &&& !is_show_all_command(line@)
                    &&& *final(registry) == *old(registry)
                    &&& message@ == invalid_command_message()
                },
            }
        }),
{
    let classified_line = get_input_type(line);
    match classified_line {
        Ok(InputType::AddEmployee { employee, department }) => {
            let reported_employee = employee.clone();
            let reported_department = department.clone();
            registry.add_employee(employee, department);
            CommandOutcome::Added {
                employee: reported_employee,
                department: reported_department,
            }
        },
        Ok(InputType::GetEmployeesByDepartment(department)) => {
            let found = registry.list_by_department(department.as_str());
            match found {
                Some(employees) => {
                    let listed = clone_employees(employees);
                    CommandOutcome::DepartmentEmployees { department, employees: listed }
                },
                None => CommandOutcome::NoSuchDepartment { department },
            }
        },
        Ok(InputType::GetAllEmployees) => {
            CommandOutcome::AllDepartments { departments: registry.snapshot() }
        },
        Err(ClassificationError::InvalidCommand { message }) => {
            CommandOutcome::Rejected { message }
        },
    }
}

/// A copy of an employee list, name for name.
fn clone_employees(employees: &Vec<String>) -> (r: Vec<String>)
    ensures
        r.deep_view() == employees.deep_view(),
        r@ == employees@,
{
    let r = employees.clone();
    proof {
        assert forall|k: int| 0 <= k < employees@.len() implies r@[k] == employees@[k] by {
            assert(cloned::<String>(employees@[k], r@[k]));
        }
        assert(r@ =~= employees@);
    }
    r
}

} // verus!
