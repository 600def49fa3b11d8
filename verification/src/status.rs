//! The finite set of project statuses and its two inverse cyclic orderings.

use vstd::prelude::*;

verus! {

/// Which way a cycling operation moves: `Up` toward the predecessor side,
/// `Down` toward the successor side.
#[derive(Clone, Copy, Debug, PartialEq, Eq, Structural)]
pub enum CycleDirection {
    Up,
    Down,
}

/// A project's status: always exactly one of these four values.
#[derive(Clone, Copy, Debug, PartialEq, Eq, Structural)]
pub enum ProjectStatus {
    Finished,
    InProgress,
    Idea,
    Paused,
}

/// The total successor/predecessor function over the status set.
/// Forward (`Up`) order: Idea -> InProgress -> Finished -> Paused -> Idea;
/// `Down` is its exact inverse.
pub open spec fn status_cycle(s: ProjectStatus, direction: CycleDirection) -> ProjectStatus {
    match direction {
        CycleDirection::Up => match s {
            ProjectStatus::Finished => ProjectStatus::Paused,
            ProjectStatus::InProgress => ProjectStatus::Finished,
            ProjectStatus::Idea => ProjectStatus::InProgress,
            ProjectStatus::Paused => ProjectStatus::Idea,
        },
        CycleDirection::Down => match s {
            ProjectStatus::Finished => ProjectStatus::InProgress,
            ProjectStatus::InProgress => ProjectStatus::Idea,
            ProjectStatus::Idea => ProjectStatus::Paused,
            ProjectStatus::Paused => ProjectStatus::Finished,
        },
    }
}

/// The fixed display color paired with each status glyph.
#[derive(Clone, Copy, Debug, PartialEq, Eq, Structural)]
pub enum StatusColor {
    Green,
    Yellow,
    Red,
    White,
}

/// The one-character display glyph of a status with its color: a renderer
/// draws this pair in front of the project name.
#[derive(Clone, Copy, Debug, PartialEq, Eq, Structural)]
pub struct StatusSymbol {
    pub glyph: char,
    pub color: StatusColor,
}

/// The fixed, not user-configurable glyph-and-color mapping of each status.
pub open spec fn symbol_of(s: ProjectStatus) -> StatusSymbol {
    match s {
        ProjectStatus::Finished => StatusSymbol { glyph: '✔', color: StatusColor::Green },
        ProjectStatus::InProgress => StatusSymbol { glyph: '-', color: StatusColor::Yellow },
        ProjectStatus::Paused => StatusSymbol { glyph: 'X', color: StatusColor::Red },
        ProjectStatus::Idea => StatusSymbol { glyph: '!', color: StatusColor::White },
    }
}

/// The human-readable label of each status, shown in the detail pane.
pub open spec fn label_of(s: ProjectStatus) -> Seq<char> {
    match s {
        ProjectStatus::Finished => "Finished"@,
        ProjectStatus::InProgress => "In Progress"@,
        ProjectStatus::Paused => "Paused"@,
        ProjectStatus::Idea => "Idea"@,
    }
}

impl ProjectStatus {
    /// The status's display glyph and color.
    pub fn to_symbol(&self) -> (r: StatusSymbol)
        ensures
            r == symbol_of(*self),
    {
        match self {
            Self::Finished => StatusSymbol { glyph: '✔', color: StatusColor::Green },
            Self::InProgress => StatusSymbol { glyph: '-', color: StatusColor::Yellow },
            Self::Paused => StatusSymbol { glyph: 'X', color: StatusColor::Red },
            Self::Idea => StatusSymbol { glyph: '!', color: StatusColor::White },
        }
    }

    /// The status's human-readable label.
    pub fn label(&self) -> (r: &str)
        ensures
            r@ == label_of(*self),
    {
        match self {
            Self::Finished => "Finished",
            Self::InProgress => "In Progress",
            Self::Paused => "Paused",
            Self::Idea => "Idea",
        }
    }

    /// Steps this status once along the cycle in the given direction.
    pub fn cycle(&self, direction: CycleDirection) -> (r: Self)
        ensures
            r == status_cycle(*self, direction),
    {
        match direction {
            CycleDirection::Up => match self {
                Self::Finished => Self::Paused,
                Self::InProgress => Self::Finished,
                Self::Idea => Self::InProgress,
                Self::Paused => Self::Idea,
            },
            CycleDirection::Down => match self {
                Self::Finished => Self::InProgress,
                Self::InProgress => Self::Idea,
                Self::Idea => Self::Paused,
                Self::Paused => Self::Finished,
            },
        }
    }
}

/// Cycling one way and then the other restores the original status:
/// the two orderings are exact inverses.
pub proof fn lemma_cycle_inverse(s: ProjectStatus)
    ensures
        status_cycle(status_cycle(s, CycleDirection::Up), CycleDirection::Down) == s,
        status_cycle(status_cycle(s, CycleDirection::Down), CycleDirection::Up) == s,
{
}

/// Cycling four times in one direction returns to the same status:
/// each ordering is a single 4-cycle over the whole set.
pub proof fn lemma_cycle_closure(s: ProjectStatus, direction: CycleDirection)
    ensures
        status_cycle(
            status_cycle(status_cycle(status_cycle(s, direction), direction), direction),
            direction,
        ) == s,
{
}

} // verus!
