use vstd::prelude::*;

verus! {

/// The mathematical value of an [`Employee`].
pub struct EmployeeView {
    pub id: Seq<char>,
    pub name: Seq<char>,
    pub age: u8,
    pub position: Seq<char>,
}

/// One employee record. The `id` is assigned by the store and never changes.
#[derive(Debug, Clone)]
pub struct Employee {
    pub id: String,
    pub name: String,
    pub age: u8,
    pub position: String,
}

impl View for Employee {
    type V = EmployeeView;

    open spec fn view(&self) -> EmployeeView {
        EmployeeView { id: self.id@, name: self.name@, age: self.age, position: self.position@ }
    }
}

/// The views of a sequence of records, one for one.
pub open spec fn views(s: Seq<Employee>) -> Seq<EmployeeView> {
    s.map_values(|e: Employee| e@)
}

impl Employee {
    pub fn new(id: String, name: String, age: u8, position: String) -> (r: Employee)
        ensures
            r@ == (EmployeeView { id: id@, name: name@, age, position: position@ }),
    {
        Employee { id, name, age, position }
    }

    /// A field-by-field copy of this record.
    pub fn duplicate(&self) -> (r: Employee)
        ensures
            r@ == self@,
    {
        Employee {
            id: self.id.clone(),
            name: self.name.clone(),
            age: self.age,
            position: self.position.clone(),
        }
    }
}

} // verus!
