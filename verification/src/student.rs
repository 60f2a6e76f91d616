//! Students.

use vstd::prelude::*;

verus! {

/// One student record.
#[derive(Debug)]
pub struct Student {
    pub active: bool,
    pub name: String,
    pub age: u8,
    pub grade: char,
}

/// Build a new student with the given particulars, active from the start.
pub fn build_student(name: String, age: u8, grade: char) -> (s: Student)
    ensures
        s.active,
        s.name@ == name@,
        s.age == age,
        s.grade == grade,
{
    Student { active: true, name, age, grade }
}

} // verus!
