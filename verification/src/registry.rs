//! The registry: an in-memory multimap from department names to the ordered
//! lists of employees assigned to them.
//!
//! The store is a vector of entries with pairwise-distinct department names,
//! in insertion order. Its mathematical content is [`Registry::as_map`], a
//! mapping from department name to employee names; adding an employee appends
//! to the department's list ([`spec_add`]), creating the department on first
//! use. There is no deletion and no deduplication.

use vstd::prelude::*;
use crate::classify::str_eq;

verus! {

/// One department together with its employees, in the order they were added.
#[derive(Debug)]
pub struct DepartmentEntry {
    pub name: String,
    pub employees: Vec<String>,
}

impl DepartmentEntry {
    /// The mathematical content of the entry: the department name and the
    /// employee names, in order.
    pub open spec fn model(self) -> (Seq<char>, Seq<Seq<char>>) {
        (self.name@, self.employees.deep_view())
    }
}

impl Clone for DepartmentEntry {
    fn clone(&self) -> (res: Self)
        ensures
            res.model() == self.model(),
    {
        let employees = self.employees.clone();
        proof {
            assert forall|k: int| 0 <= k < self.employees@.len() implies employees@[k]
                == self.employees@[k] by {
                assert(cloned::<String>(self.employees@[k], employees@[k]));
            }
            assert(employees@ =~= self.employees@);
        }
        DepartmentEntry { name: self.name.clone(), employees }
    }
}

/// The models of a sequence of entries, pairing each name with its list.
pub open spec fn entries_models(entries: Seq<DepartmentEntry>) -> Seq<
    (Seq<char>, Seq<Seq<char>>),
> {
    entries.map_values(|d: DepartmentEntry| d.model())
}

/// Appending `employee` to `department`'s list in mapping `m`, creating the
/// department with a one-element list if it is absent.
pub open spec fn spec_add(
    m: Map<Seq<char>, Seq<Seq<char>>>,
    department: Seq<char>,
    employee: Seq<char>,
) -> Map<Seq<char>, Seq<Seq<char>>> {
    let previous = if m.contains_key(department) {
        m[department]
    } else {
        Seq::empty()
    };
    m.insert(department, previous.push(employee))
}

/// The in-memory registry. Created empty; mutated only by
/// [`Registry::add_employee`].
#[derive(Debug)]
pub struct Registry {
    pub departments: Vec<DepartmentEntry>,
}

impl Registry {
    /// The department names, in insertion order.
    pub open spec fn names(self) -> Seq<Seq<char>> {
        self.departments@.map_values(|d: DepartmentEntry| d.name@)
    }

    /// The models of the entries, in insertion order.
    pub open spec fn models(self) -> Seq<(Seq<char>, Seq<Seq<char>>)> {
        entries_models(self.departments@)
    }

    /// Well-formed: each department name occurs at most once.
    pub open spec fn wf(self) -> bool {
        forall|i: int, j: int|
            0 <= i < j < self.names().len() ==> self.names()[i] != self.names()[j]
    }

    /// Whether some entry carries `name`.
    pub open spec fn contains_department(self, name: Seq<char>) -> bool {
        self.names().contains(name)
    }

    /// The employee list of the entry carrying `name` (meaningful only when
    /// `name` is present and the registry is well-formed).
    pub open spec fn employees_of(self, name: Seq<char>) -> Seq<Seq<char>> {
        self.departments@[self.names().index_of(name)].employees.deep_view()
    }

    /// The registry's content as a mapping from department name to employee
    /// names.
    pub open spec fn as_map(self) -> Map<Seq<char>, Seq<Seq<char>>> {
        Map::new(
            |name: Seq<char>| self.contains_department(name),
            |name: Seq<char>| self.employees_of(name),
        )
    }

    /// In a well-formed registry, the entry holding `name` is the one
    /// `index_of` picks.
    pub proof fn lemma_index_of_unique(self, name: Seq<char>, i: int)
        requires
            self.wf(),
            0 <= i < self.names().len(),
            self.names()[i] == name,
        ensures
            self.contains_department(name),
            self.names().index_of(name) == i,
    {
        assert(self.contains_department(name));
        let j = self.names().index_of(name);
        assert(0 <= j < self.names().len() && self.names()[j] == name);
    }

    /// A present name is held by the entry `index_of` picks.
    pub proof fn lemma_contains_index(self, name: Seq<char>)
        requires
            self.contains_department(name),
        ensures
            0 <= self.names().index_of(name) < self.names().len(),
            self.names()[self.names().index_of(name)] == name,
    {
        let j = self.names().index_of(name);
        assert(0 <= j < self.names().len() && self.names()[j] == name);
    }

    /// Creates the empty registry.
    pub fn new() -> (r: Registry)
        ensures
            r.wf(),
            r.departments@.len() == 0,
            r.as_map() == Map::<Seq<char>, Seq<Seq<char>>>::empty(),
    {
        let r = Registry { departments: Vec::new() };
        proof {
            assert(r.names().len() == 0);
            assert(r.as_map() =~= Map::<Seq<char>, Seq<Seq<char>>>::empty());
        }
        r
    }

    /// Decides well-formedness: whether all department names are distinct.
    pub fn is_well_formed(&self) -> (r: bool)
        ensures
            r == self.wf(),
    {
        let n = self.departments.len();
        let mut i: usize = 1;
        while i < n
            invariant
                n == self.departments@.len(),
                1 <= i,
                i <= n || n == 0,
                forall|a: int, b: int| 0 <= a < b < i ==> self.names()[a] != self.names()[b],
            decreases n - i,
        {
            let mut j: usize = 0;
            while j < i
                invariant
                    n == self.departments@.len(),
                    j <= i < n,
                    forall|a: int, b: int| 0 <= a < b < i ==> self.names()[a] != self.names()[b],
                    forall|b: int| 0 <= b < j ==> self.names()[b] != self.names()[i as int],
                decreases i - j,
            {
                if str_eq(self.departments[j].name.as_str(), self.departments[i].name.as_str()) {
                    proof {
                        assert(self.names()[j as int] == self.names()[i as int]);
                    }
                    return false;
                }
                j += 1;
            }
            i += 1;
        }
        true
    }

    /// Adds `employee` to `department`: appends to the department's list if
    /// the department exists, otherwise creates it with a one-element list.
    /// Always succeeds; duplicates are kept.
    pub fn add_employee(&mut self, employee: String, department: String)
        requires
            old(self).wf(),
        ensures
            final(self).wf(),
            final(self).as_map() == spec_add(old(self).as_map(), department@, employee@),
            final(self).names() == (if old(self).contains_department(department@) {
                old(self).names()
            } else {
                old(self).names().push(department@)
            }),
    {
        let ghost pre = *old(self);
        let n = self.departments.len();
        let mut i: usize = 0;
        while i < n
            invariant
                pre == *old(self),
                *self == pre,
                pre.wf(),
                n == self.departments@.len(),
                i <= n,
                forall|k: int| 0 <= k < i ==> self.names()[k] != department@,
            decreases n - i,
        {
            if str_eq(self.departments[i].name.as_str(), department.as_str()) {
                proof {
                    assert(pre.names()[i as int] == department@);
                    pre.lemma_index_of_unique(department@, i as int);
                }
                let ghost old_entry = self.departments@[i as int];
                let mut entry = self.departments.remove(i);
                entry.employees.push(employee);
                let ghost new_entry = entry;
                self.departments.insert(i, entry);
                proof {
                    let post = *self;
                    assert(post.departments@ =~= pre.departments@.update(i as int, new_entry));
                    assert(post.names() =~= pre.names());
                    assert(new_entry.employees@ == old_entry.employees@.push(employee));
                    assert forall|k: int|
                        0 <= k < new_entry.employees@.len() implies #[trigger] new_entry.employees
                        .deep_view()[k] == old_entry.employees.deep_view().push(employee@)[k] by {
                        if k < old_entry.employees@.len() {
                            assert(new_entry.employees@[k] == old_entry.employees@[k]);
                        } else {
                            assert(new_entry.employees@[k] == employee);
                        }
                    }
                    assert(new_entry.employees.deep_view() =~= old_entry.employees.deep_view()
                        .push(employee@));
                    post.lemma_index_of_unique(department@, i as int);
                    assert forall|name: Seq<char>|
                        post.as_map().contains_key(name) implies post.as_map()[name] == spec_add(
                        pre.as_map(),
                        department@,
                        employee@,
                    )[name] by {
                        if name == department@ {
                            assert(post.employees_of(department@) == new_entry.employees.deep_view());
                            assert(pre.employees_of(department@) == old_entry.employees.deep_view());
                        } else {
                            pre.lemma_contains_index(name);
                            let k = pre.names().index_of(name);
                            assert(k != i);
                            post.lemma_index_of_unique(name, k);
                            assert(post.departments@[k] == pre.departments@[k]);
                        }
                    }
                    assert(post.as_map() =~= spec_add(pre.as_map(), department@, employee@));
                }
                return;
            }
            i += 1;
        }
        proof {
            assert(!pre.contains_department(department@));
        }
        let mut employees: Vec<String> = Vec::new();
        employees.push(employee);
        let entry = DepartmentEntry { name: department, employees };
        let ghost new_entry = entry;
        self.departments.push(entry);
        proof {
            let post = *self;
            assert(post.departments@ =~= pre.departments@.push(new_entry));
            assert(post.names() =~= pre.names().push(new_entry.name@));
            assert(new_entry.name@ == department@);
            assert(post.wf()) by {
                assert forall|a: int, b: int|
                    0 <= a < b < post.names().len() implies post.names()[a] != post.names()[b] by {
                    if b < pre.names().len() {
                        assert(pre.names()[a] != pre.names()[b]);
                    } else {
                        assert(post.names()[b] == department@);
                        assert(post.names()[a] == pre.names()[a]);
                    }
                }
            }
            post.lemma_index_of_unique(department@, pre.names().len() as int);
            assert(new_entry.employees.deep_view() =~= Seq::<Seq<char>>::empty().push(employee@));
            assert forall|name: Seq<char>|
                post.as_map().contains_key(name) == spec_add(pre.as_map(), department@, employee@)
                    .contains_key(name) by {
                if name != department@ && post.contains_department(name) {
                    post.lemma_contains_index(name);
                    let k = post.names().index_of(name);
                    assert(pre.names()[k] == name);
                }
                if name != department@ && pre.contains_department(name) {
                    pre.lemma_contains_index(name);
                    let k = pre.names().index_of(name);
                    assert(post.names()[k] == name);
                }
            }
            assert forall|name: Seq<char>|
                post.as_map().contains_key(name) implies post.as_map()[name] == spec_add(
                pre.as_map(),
                department@,
                employee@,
            )[name] by {
                if name == department@ {
                    assert(post.employees_of(department@) == new_entry.employees.deep_view());
                } else {
                    pre.lemma_contains_index(name);
                    let k = pre.names().index_of(name);
                    post.lemma_index_of_unique(name, k);
                    assert(post.departments@[k] == pre.departments@[k]);
                }
            }
            assert(post.as_map() =~= spec_add(pre.as_map(), department@, employee@));
        }
    }

    /// Looks up one department; `None` signals the expected not-found
    /// outcome, never an error.
    pub fn list_by_department(&self, department: &str) -> (r: Option<&Vec<String>>)
        requires
            self.wf(),
        ensures
            match r {
                Some(employees) => {
                    &&& self.contains_department(department@)
                    &&& employees.deep_view() == self.employees_of(department@)
                    &&& self.as_map()[department@] == employees.deep_view()
                },
                None => !self.contains_department(department@),
            },
    {
        let n = self.departments.len();
        let mut i: usize = 0;
        while i < n
            invariant
                self.wf(),
                n == self.departments@.len(),
                i <= n,
                forall|k: int| 0 <= k < i ==> self.names()[k] != department@,
            decreases n - i,
        {
            if str_eq(self.departments[i].name.as_str(), department) {
                proof {
                    self.lemma_index_of_unique(department@, i as int);
                }
                return Some(&self.departments[i].employees);
            }
            i += 1;
        }
        proof {
            assert(!self.contains_department(department@));
        }
        None
    }

    /// Hands out the registry's full contents for read-only rendering.
    pub fn list_all(&self) -> (r: &Vec<DepartmentEntry>)
        ensures
            r@ == self.departments@,
    {
        &self.departments
    }

    /// A deep copy of the registry's contents, entry for entry.
    pub fn snapshot(&self) -> (r: Vec<DepartmentEntry>)
        ensures
            entries_models(r@) == self.models(),
    {
        let r = self.departments.clone();
        proof {
            assert forall|k: int| 0 <= k < self.departments@.len() implies (
            #[trigger] r@[k]).model() == self.departments@[k].model() by {
                assert(cloned::<DepartmentEntry>(self.departments@[k], r@[k]));
            }
            assert(entries_models(r@) =~= self.models());
        }
        r
    }

    /// Every entry the registry hands out is exactly the mapping's value for
    /// its name, and the mapping holds no other departments.
    pub proof fn lemma_entries_match_map(self)
        requires
            self.wf(),
        ensures
            forall|i: int|
                0 <= i < self.departments@.len() ==> {
                    let entry = #[trigger] self.departments@[i];
                    self.as_map().contains_key(entry.name@) && self.as_map()[entry.name@]
                        == entry.employees.deep_view()
                },
            forall|name: Seq<char>|
                self.as_map().contains_key(name) ==> exists|i: int|
                    0 <= i < self.departments@.len() && (#[trigger] self.departments@[i]).name@
                        == name,
    {
        assert forall|i: int| 0 <= i < self.departments@.len() implies {
            let entry = #[trigger] self.departments@[i];
            self.as_map().contains_key(entry.name@) && self.as_map()[entry.name@]
                == entry.employees.deep_view()
        } by {
            self.lemma_index_of_unique(self.departments@[i].name@, i);
        }
        assert forall|name: Seq<char>| self.as_map().contains_key(name) implies exists|i: int|
            0 <= i < self.departments@.len() && (#[trigger] self.departments@[i]).name@ == name by {
            self.lemma_contains_index(name);
            let k = self.names().index_of(name);
            assert(self.departments@[k].name@ == name);
        }
    }
}

/// Adding an employee always leaves them as the last element of their
/// department's list, which grows by exactly one element.
pub proof fn lemma_add_then_lookup(
    m: Map<Seq<char>, Seq<Seq<char>>>,
    department: Seq<char>,
    employee: Seq<char>,
)
    ensures
        spec_add(m, department, employee).contains_key(department),
        spec_add(m, department, employee)[department].last() == employee,
        spec_add(m, department, employee)[department].len() == (if m.contains_key(department) {
            m[department].len()
        } else {
            0
        }) + 1,
{
}

/// Repeating the same add appends the employee a second time: the list ends
/// with the employee twice, with no deduplication.
pub proof fn lemma_add_twice_no_dedup(
    m: Map<Seq<char>, Seq<Seq<char>>>,
    department: Seq<char>,
    employee: Seq<char>,
)
    ensures
        ({
            let twice = spec_add(spec_add(m, department, employee), department, employee);
            &&& twice[department].len() >= 2
            &&& twice[department][twice[department].len() - 1] == employee
            &&& twice[department][twice[department].len() - 2] == employee
        }),
{
}

/// An add touches only its own department: every other department stays
/// present or absent as it was, with its list unchanged. In particular a
/// department never named by any add stays absent.
pub proof fn lemma_add_preserves_others(
    m: Map<Seq<char>, Seq<Seq<char>>>,
    department: Seq<char>,
    employee: Seq<char>,
    other: Seq<char>,
)
    requires
        other != department,
    ensures
        spec_add(m, department, employee).contains_key(other) == m.contains_key(other),
        m.contains_key(other) ==> spec_add(m, department, employee)[other] == m[other],
{
}

/// A department receives employees in exactly the order they were added:
/// three adds to a fresh department yield exactly that three-element list.
pub proof fn lemma_add_order_preserved(
    m: Map<Seq<char>, Seq<Seq<char>>>,
    department: Seq<char>,
    e1: Seq<char>,
    e2: Seq<char>,
    e3: Seq<char>,
)
    requires
        !m.contains_key(department),
    ensures
        spec_add(spec_add(spec_add(m, department, e1), department, e2), department, e3)[department]
            == seq![e1, e2, e3],
{
    assert(spec_add(
        spec_add(spec_add(m, department, e1), department, e2),
        department,
        e3,
    )[department] =~= seq![e1, e2, e3]);
}

} // verus!
