//! The aggregate root: an ordered collection of projects and the current
//! selection, with wraparound navigation and status cycling.

use vstd::prelude::*;

use crate::project::{Project, ProjectData};
use crate::status::{status_cycle, CycleDirection, ProjectStatus};

verus! {

/// The mathematical content of a library: the projects in display order and
/// the selection index.
pub struct LibraryData {
    pub projects: Seq<ProjectData>,
    pub selected: int,
}

/// The ordered collection of projects plus the current selection index.
/// The selection is meaningful only while the collection is non-empty.
#[derive(Debug)]
pub struct ProjectLibrary {
    projects: Vec<Project>,
    selected_project_index: usize,
}

impl View for ProjectLibrary {
    type V = LibraryData;

    closed spec fn view(&self) -> LibraryData {
        LibraryData {
            projects: self.projects.deep_view(),
            selected: self.selected_project_index as int,
        }
    }
}

/// The library's invariant: the selection index stays inside the collection,
/// and rests at zero while the collection is empty.
pub open spec fn library_well_formed(lib: LibraryData) -> bool {
    if lib.projects.len() == 0 {
        lib.selected == 0
    } else {
        0 <= lib.selected < lib.projects.len()
    }
}

/// Where one wraparound selection step lands: moving past the last element
/// selects the first, moving before the first selects the last, and an empty
/// collection leaves the selection where it is.
pub open spec fn next_selected(selected: int, len: int, direction: CycleDirection) -> int {
    if len <= 0 {
        selected
    } else {
        match direction {
            CycleDirection::Down => if selected + 1 >= len {
                0
            } else {
                selected + 1
            },
            CycleDirection::Up => if selected == 0 {
                len - 1
            } else {
                selected - 1
            },
        }
    }
}

impl Default for ProjectLibrary {
    /// The empty library: no projects, selection resting at zero.
    fn default() -> (r: Self)
        ensures
            r@.projects.len() == 0,
            r@.selected == 0,
            library_well_formed(r@),
    {
        ProjectLibrary { projects: Vec::new(), selected_project_index: 0 }
    }
}

impl ProjectLibrary {
    /// Builds a library from an already-parsed collection, with the
    /// selection reset to the first entry.
    pub fn from_projects(projects: Vec<Project>) -> (r: Self)
        ensures
            r@.projects == projects.deep_view(),
            r@.selected == 0,
            library_well_formed(r@),
    {
        ProjectLibrary { projects, selected_project_index: 0 }
    }

    /// How many projects the library holds.
    pub fn project_count(&self) -> (r: usize)
        ensures
            r == self@.projects.len(),
    {
        self.projects.len()
    }

    /// The current selection index. Meaningful only while the library is
    /// non-empty; on an empty library it is zero.
    pub fn selected_index(&self) -> (r: usize)
        ensures
            r == self@.selected,
    {
        self.selected_project_index
    }

    /// A view of the project at the given position.
    pub fn project_at(&self, index: usize) -> (r: &Project)
        requires
            index < self@.projects.len(),
        ensures
            r@ == self@.projects[index as int],
    {
        &self.projects[index]
    }

    /// Appends a project at the end of the collection. The selection index
    /// does not move; if the library was empty, the selection becomes valid
    /// at the first element implicitly.
    pub fn add_project(&mut self, project: Project)
        requires
            library_well_formed(old(self)@),
        ensures
            final(self)@.projects == old(self)@.projects.push(project@),
            final(self)@.selected == old(self)@.selected,
            library_well_formed(final(self)@),
    {
        self.projects.push(project);
        proof {
            assert(self.projects.deep_view() =~= old(self).projects.deep_view().push(project@));
        }
    }

    /// Moves the selection one step with wraparound; a no-op on an empty
    /// library.
    pub fn cycle_selected_project(&mut self, direction: CycleDirection)
        requires
            library_well_formed(old(self)@),
        ensures
            final(self)@.projects == old(self)@.projects,
            final(self)@.selected == next_selected(
                old(self)@.selected,
                old(self)@.projects.len() as int,
                direction,
            ),
            library_well_formed(final(self)@),
    {
        if self.projects.len() == 0 {
            return ;
        }
        match direction {
            CycleDirection::Down => {
                if self.selected_project_index >= self.projects.len() - 1 {
                    self.selected_project_index = 0;
                } else {
                    self.selected_project_index = self.selected_project_index + 1;
                }
            },
            CycleDirection::Up => {
                if self.selected_project_index == 0 {
                    self.selected_project_index = self.projects.len() - 1;
                } else {
                    self.selected_project_index = self.selected_project_index - 1;
                }
            },
        }
    }

    /// Replaces the selected project's status with its cyclic successor or
    /// predecessor; a no-op on an empty library.
    pub fn cycle_selected_project_status(&mut self, direction: CycleDirection)
        requires
            library_well_formed(old(self)@),
        ensures
            old(self)@.projects.len() == 0 ==> final(self)@ == old(self)@,
            old(self)@.projects.len() > 0 ==> {
                let i = old(self)@.selected;
                let p = old(self)@.projects[i];
                final(self)@.projects == old(self)@.projects.update(
                    i,
                    ProjectData { status: status_cycle(p.status, direction), ..p },
                )
            },
            final(self)@.selected == old(self)@.selected,
            library_well_formed(final(self)@),
    {
        if self.selected_project_index < self.projects.len() {
            let i = self.selected_project_index;
            let p = &mut self.projects[i];
            p.cycle_status(direction);
            proof {
                assert(self.projects.deep_view() =~= old(self).projects.deep_view().update(
                    i as int,
                    ProjectData {
                        status: status_cycle(old(self).projects.deep_view()[i as int].status, direction),
                        ..old(self).projects.deep_view()[i as int]
                    },
                ));
            }
        } else {
            proof {
                assert(self@ =~= old(self)@);
            }
        }
    }
}

/// Where the selection lands after `count` wraparound steps in one direction.
pub open spec fn selected_after_steps(
    selected: int,
    len: int,
    direction: CycleDirection,
    count: nat,
) -> int
    decreases count,
{
    if count == 0 {
        selected
    } else {
        next_selected(selected_after_steps(selected, len, direction, (count - 1) as nat), len, direction)
    }
}

/// After `count <= len` downward steps from a valid selection, the selection
/// sits `count` places further on, wrapped once past the end at most.
proof fn lemma_down_steps_shift(selected: int, len: int, count: nat)
    requires
        0 <= selected < len,
        count <= len,
    ensures
        selected_after_steps(selected, len, CycleDirection::Down, count) == if selected + count
            < len {
            selected + count
        } else {
            selected + count - len
        },
    decreases count,
{
    if count > 0 {
        lemma_down_steps_shift(selected, len, (count - 1) as nat);
    }
}

/// After `count <= len` upward steps from a valid selection, the selection
/// sits `count` places back, wrapped once past the start at most.
proof fn lemma_up_steps_shift(selected: int, len: int, count: nat)
    requires
        0 <= selected < len,
        count <= len,
    ensures
        selected_after_steps(selected, len, CycleDirection::Up, count) == if selected - count
            >= 0 {
            selected - count
        } else {
            selected - count + len
        },
    decreases count,
{
    if count > 0 {
        lemma_up_steps_shift(selected, len, (count - 1) as nat);
    }
}

/// Full traversal returns to the start: on a non-empty library of `len`
/// projects, `len` selection steps in one direction restore the original
/// selection index.
pub proof fn lemma_full_traversal(selected: int, len: int, direction: CycleDirection)
    requires
        0 <= selected < len,
    ensures
        selected_after_steps(selected, len, direction, len as nat) == selected,
{
    match direction {
        CycleDirection::Down => lemma_down_steps_shift(selected, len, len as nat),
        CycleDirection::Up => lemma_up_steps_shift(selected, len, len as nat),
    }
}

/// One selection step one way and then one the other restores the original
/// selection index on any non-empty library.
pub proof fn lemma_selection_step_inverse(selected: int, len: int)
    requires
        0 <= selected < len,
    ensures
        next_selected(next_selected(selected, len, CycleDirection::Up), len, CycleDirection::Down)
            == selected,
        next_selected(next_selected(selected, len, CycleDirection::Down), len, CycleDirection::Up)
            == selected,
{
}

} // verus!
