//! A simple flat project list with bracketed status markers: a standalone
//! alternate list widget, separate from the main library aggregate.

use vstd::prelude::*;
use vstd::string::*;

verus! {

#[derive(Clone, Copy, Debug, PartialEq, Eq, Structural)]
enum ProjectStatus {
    Finished,
    InProgress,
    Idea,
}

/// One entry of the flat list: a title, a description, and a status that
/// starts at `Idea`.
#[derive(Debug)]
pub struct Project {
    title: String,
    description: String,
    status: ProjectStatus,
}

impl Project {
    /// The entry's title.
    pub closed spec fn title_spec(&self) -> Seq<char> {
        self.title@
    }

    /// The entry's description.
    pub closed spec fn description_spec(&self) -> Seq<char> {
        self.description@
    }

    /// The bracketed marker drawn before the title: a check for a finished
    /// entry, a dash for one in progress, a blank for an idea.
    pub closed spec fn marker_spec(&self) -> Seq<char> {
        match self.status {
            ProjectStatus::Finished => "[✓]"@,
            ProjectStatus::InProgress => "[-]"@,
            ProjectStatus::Idea => "[ ]"@,
        }
    }

    /// Creates an entry with the given title and description, starting as
    /// an idea.
    pub fn new(title: String, description: String) -> (r: Self)
        ensures
            r.title_spec() == title@,
            r.description_spec() == description@,
            r.marker_spec() == "[ ]"@,
    {
        Project { title, description, status: ProjectStatus::Idea }
    }

    /// The entry's single display line: its marker, one space, its title.
    pub fn to_string(&self) -> (r: String)
        ensures
            r@ == self.marker_spec() + " "@ + self.title_spec(),
    {
        let marker: &str = match self.status {
            ProjectStatus::Finished => "[✓]",
            ProjectStatus::InProgress => "[-]",
            ProjectStatus::Idea => "[ ]",
        };
        let mut out = marker.to_owned();
        out.append(" ");
        out.append(self.title.as_str());
        out
    }
}

/// The flat, ordered collection of entries.
#[derive(Debug)]
pub struct ProjectList {
    projects: Vec<Project>,
}

impl ProjectList {
    /// The entries in display order.
    pub closed spec fn projects_spec(&self) -> Seq<Project> {
        self.projects@
    }

    /// How many entries the list holds.
    pub fn project_count(&self) -> (r: usize)
        ensures
            r == self.projects_spec().len(),
    {
        self.projects.len()
    }

    /// The entry at the given position.
    pub fn project_at(&self, index: usize) -> (r: &Project)
        requires
            index < self.projects_spec().len(),
        ensures
            *r == self.projects_spec()[index as int],
    {
        &self.projects[index]
    }

    /// Appends a fresh `Idea` entry with the given title and description at
    /// the end of the list.
    pub fn add_project(&mut self, title: String, description: String)
        ensures
            final(self).projects_spec().len() == old(self).projects_spec().len() + 1,
            final(self).projects_spec().subrange(0, old(self).projects_spec().len() as int)
                == old(self).projects_spec(),
            final(self).projects_spec().last().title_spec() == title@,
            final(self).projects_spec().last().description_spec() == description@,
            final(self).projects_spec().last().marker_spec() == "[ ]"@,
    {
        self.projects.push(Project::new(title, description));
        proof {
            assert(self.projects@.subrange(0, old(self).projects@.len() as int)
                =~= old(self).projects@);
        }
    }
}

impl Default for ProjectList {
    /// The empty list.
    fn default() -> (r: Self)
        ensures
            r.projects_spec().len() == 0,
    {
        ProjectList { projects: Vec::new() }
    }
}

} // verus!
