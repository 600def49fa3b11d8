//! The two-pane rendering contract: a pure, side-effect-free projection of
//! the library's state into a renderable structure. The left pane, about
//! 30% of the width, lists the projects as glyph-prefixed single-line
//! entries with the selected entry marked; the right pane, about 70%,
//! shows the selected project's name, status label and description, or
//! stays an empty bordered region while the library is empty.

use vstd::prelude::*;
use vstd::string::*;

use crate::library::{library_well_formed, ProjectLibrary};
use crate::project::{Project, ProjectData};
use crate::status::{label_of, symbol_of, ProjectStatus, StatusColor};

verus! {

/// The left pane's share of the width, in percent.
pub const LIST_PANE_PERCENT: u16 = 30;

/// The right pane's share of the width, in percent.
pub const DETAIL_PANE_PERCENT: u16 = 70;

/// One line of the list pane: the glyph-prefixed project name, the color it
/// is drawn in, and whether this entry is the selected, highlighted one.
#[derive(Debug)]
pub struct ListEntry {
    pub text: String,
    pub color: StatusColor,
    pub selected: bool,
}

/// The detail pane's content for the selected project.
#[derive(Debug)]
pub struct DetailPane {
    pub name: String,
    pub status_label: String,
    pub description: String,
}

/// The whole two-pane frame: the list entries in display order, and the
/// detail of the selected project, absent while the library is empty.
#[derive(Debug)]
pub struct LibraryView {
    pub entries: Vec<ListEntry>,
    pub detail: Option<DetailPane>,
    pub list_percent: u16,
    pub detail_percent: u16,
}

/// The single-line text of a project's list entry: its status glyph, one
/// space, then its name.
pub open spec fn entry_text(p: ProjectData) -> Seq<char> {
    seq![symbol_of(p.status).glyph, ' '] + p.name
}

impl Project {
    /// This project's list-pane entry, not yet marked as selected.
    pub fn to_list_item(&self) -> (r: ListEntry)
        ensures
            r.text@ == entry_text(self@),
            r.color == symbol_of(self@.status).color,
            !r.selected,
    {
        let prefix: &str = match self.status() {
            ProjectStatus::Finished => "✔ ",
            ProjectStatus::InProgress => "- ",
            ProjectStatus::Paused => "X ",
            ProjectStatus::Idea => "! ",
        };
        proof {
            reveal_strlit("✔ ");
            reveal_strlit("- ");
            reveal_strlit("X ");
            reveal_strlit("! ");
            assert(prefix@ =~= seq![symbol_of(self@.status).glyph, ' ']);
        }
        let text = prefix.to_owned().concat(self.name());
        ListEntry { text, color: self.status().to_symbol().color, selected: false }
    }
}

impl ProjectLibrary {
    /// Projects the current state into the two-pane view. Pure: the library
    /// is not changed. Every project appears as one entry, in insertion
    /// order; exactly the selected entry is marked on a non-empty library;
    /// the detail pane carries the selected project's name, label and
    /// description, and is absent exactly when the library is empty.
    pub fn render_view(&self) -> (r: LibraryView)
        requires
            library_well_formed(self@),
        ensures
            r.list_percent == LIST_PANE_PERCENT,
            r.detail_percent == DETAIL_PANE_PERCENT,
            r.entries@.len() == self@.projects.len(),
            forall|i: int| 0 <= i < self@.projects.len() ==> {
                &&& (#[trigger] r.entries@[i]).text@ == entry_text(self@.projects[i])
                &&& r.entries@[i].color == symbol_of(self@.projects[i].status).color
                &&& (r.entries@[i].selected <==> i == self@.selected)
            },
            self@.projects.len() == 0 ==> r.detail is None,
            self@.projects.len() > 0 ==> (r.detail matches Some(d)
                && d.name@ == self@.projects[self@.selected].name
                && d.status_label@ == label_of(self@.projects[self@.selected].status)
                && d.description@ == self@.projects[self@.selected].description),
    {
        let n = self.project_count();
        let selected = self.selected_index();
        let mut entries: Vec<ListEntry> = Vec::new();
        let mut i: usize = 0;
        while i < n
            invariant
                i <= n,
                n == self@.projects.len(),
                selected == self@.selected,
                entries@.len() == i,
                forall|j: int| 0 <= j < i ==> {
                    &&& (#[trigger] entries@[j]).text@ == entry_text(self@.projects[j])
                    &&& entries@[j].color == symbol_of(self@.projects[j].status).color
                    &&& (entries@[j].selected <==> j == self@.selected)
                },
            decreases n - i,
        {
            let mut entry = self.project_at(i).to_list_item();
            if i == selected {
                entry.selected = true;
            }
            entries.push(entry);
            i = i + 1;
        }
        let detail = if n > 0 {
            let p = self.project_at(selected);
            Some(
                DetailPane {
                    name: p.name().to_owned(),
                    status_label: p.status().label().to_owned(),
                    description: p.description().to_owned(),
                },
            )
        } else {
            None
        };
        LibraryView {
            entries,
            detail,
            list_percent: LIST_PANE_PERCENT,
            detail_percent: DETAIL_PANE_PERCENT,
        }
    }
}

} // verus!
