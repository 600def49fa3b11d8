//! One tracked project: a name, a free-form description, and a status.

use vstd::prelude::*;

use crate::status::{status_cycle, CycleDirection, ProjectStatus};

verus! {

/// The mathematical content of a project: both strings as character
/// sequences, together with the status.
#[verifier::ext_equal]
pub struct ProjectData {
    pub name: Seq<char>,
    pub description: Seq<char>,
    pub status: ProjectStatus,
}

/// One tracked project. It has no identity beyond its position in the
/// library's collection.
#[derive(Debug)]
pub struct Project {
    name: String,
    description: String,
    status: ProjectStatus,
}

impl View for Project {
    type V = ProjectData;

    closed spec fn view(&self) -> ProjectData {
        ProjectData { name: self.name@, description: self.description@, status: self.status }
    }
}

impl DeepView for Project {
    type V = ProjectData;

    open spec fn deep_view(&self) -> ProjectData {
        self.view()
    }
}

impl Project {
    /// Creates a project with the given name and description; a new
    /// project always starts in the `Idea` status.
    pub fn new(name: &str, description: &str) -> (r: Self)
        ensures
            r@.name == name@,
            r@.description == description@,
            r@.status == ProjectStatus::Idea,
    {
        Project {
            name: name.to_owned(),
            description: description.to_owned(),
            status: ProjectStatus::Idea,
        }
    }

    /// Replaces the status, leaving name and description untouched.
    pub fn set_status(&mut self, status: ProjectStatus)
        ensures
            final(self)@ == (ProjectData { status, ..old(self)@ }),
    {
        self.status = status;
    }

    /// Steps the status once along the cycle in the given direction.
    pub fn cycle_status(&mut self, direction: CycleDirection)
        ensures
            final(self)@ == (ProjectData {
                status: status_cycle(old(self)@.status, direction),
                ..old(self)@
            }),
    {
        self.status = self.status.cycle(direction);
    }

    /// The project's display name.
    pub fn name(&self) -> (r: &str)
        ensures
            r@ == self@.name,
    {
        self.name.as_str()
    }

    /// The project's free-form description.
    pub fn description(&self) -> (r: &str)
        ensures
            r@ == self@.description,
    {
        self.description.as_str()
    }

    /// The project's current status.
    pub fn status(&self) -> (r: ProjectStatus)
        ensures
            r == self@.status,
    {
        self.status
    }
}

} // verus!
