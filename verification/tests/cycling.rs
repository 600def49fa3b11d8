use projectlib::library::ProjectLibrary;
use projectlib::project::Project;
use projectlib::status::{CycleDirection, ProjectStatus};

fn library_of(names: &[&str]) -> ProjectLibrary {
    let mut lib = ProjectLibrary::default();
    for name in names {
        lib.add_project(Project::new(name, ""));
    }
    lib
}

#[test]
fn status_cycle_forward_order() {
    assert_eq!(ProjectStatus::Idea.cycle(CycleDirection::Up), ProjectStatus::InProgress);
    assert_eq!(ProjectStatus::InProgress.cycle(CycleDirection::Up), ProjectStatus::Finished);
    assert_eq!(ProjectStatus::Finished.cycle(CycleDirection::Up), ProjectStatus::Paused);
    assert_eq!(ProjectStatus::Paused.cycle(CycleDirection::Up), ProjectStatus::Idea);
}

#[test]
fn status_cycle_backward_is_inverse() {
    for s in [
        ProjectStatus::Idea,
        ProjectStatus::InProgress,
        ProjectStatus::Finished,
        ProjectStatus::Paused,
    ] {
        assert_eq!(s.cycle(CycleDirection::Up).cycle(CycleDirection::Down), s);
        assert_eq!(s.cycle(CycleDirection::Down).cycle(CycleDirection::Up), s);
    }
}

#[test]
fn status_cycle_four_times_closes() {
    for s in [
        ProjectStatus::Idea,
        ProjectStatus::InProgress,
        ProjectStatus::Finished,
        ProjectStatus::Paused,
    ] {
        let mut t = s;
        for _ in 0..4 {
            t = t.cycle(CycleDirection::Up);
        }
        assert_eq!(t, s);
        let mut t = s;
        for _ in 0..4 {
            t = t.cycle(CycleDirection::Down);
        }
        assert_eq!(t, s);
    }
}

#[test]
fn full_traversal_returns_to_start() {
    let mut lib = library_of(&["a", "b", "c", "d", "e"]);
    lib.cycle_selected_project(CycleDirection::Down);
    lib.cycle_selected_project(CycleDirection::Down);
    let start = lib.selected_index();
    for _ in 0..5 {
        lib.cycle_selected_project(CycleDirection::Down);
    }
    assert_eq!(lib.selected_index(), start);
    for _ in 0..5 {
        lib.cycle_selected_project(CycleDirection::Up);
    }
    assert_eq!(lib.selected_index(), start);
}

#[test]
fn up_then_down_restores_selection() {
    let mut lib = library_of(&["a", "b", "c"]);
    for start in 0..3 {
        assert_eq!(lib.selected_index(), start);
        lib.cycle_selected_project(CycleDirection::Up);
        lib.cycle_selected_project(CycleDirection::Down);
        assert_eq!(lib.selected_index(), start);
        lib.cycle_selected_project(CycleDirection::Down);
        lib.cycle_selected_project(CycleDirection::Up);
        assert_eq!(lib.selected_index(), start);
        lib.cycle_selected_project(CycleDirection::Down);
    }
}

#[test]
fn selection_wraps_past_last_to_first() {
    let mut lib = library_of(&["a", "b", "c"]);
    lib.cycle_selected_project(CycleDirection::Down);
    lib.cycle_selected_project(CycleDirection::Down);
    assert_eq!(lib.selected_index(), 2);
    lib.cycle_selected_project(CycleDirection::Down);
    assert_eq!(lib.selected_index(), 0);
}

#[test]
fn selection_wraps_before_first_to_last() {
    let mut lib = library_of(&["a", "b", "c"]);
    assert_eq!(lib.selected_index(), 0);
    lib.cycle_selected_project(CycleDirection::Up);
    assert_eq!(lib.selected_index(), 2);
}

#[test]
fn single_element_wraparound_stays_in_place() {
    let mut lib = library_of(&["only"]);
    lib.cycle_selected_project(CycleDirection::Down);
    assert_eq!(lib.selected_index(), 0);
    lib.cycle_selected_project(CycleDirection::Up);
    assert_eq!(lib.selected_index(), 0);
}

#[test]
fn cycling_on_empty_library_is_a_no_op() {
    let mut lib = ProjectLibrary::default();
    lib.cycle_selected_project(CycleDirection::Down);
    lib.cycle_selected_project(CycleDirection::Up);
    lib.cycle_selected_project_status(CycleDirection::Up);
    lib.cycle_selected_project_status(CycleDirection::Down);
    assert_eq!(lib.project_count(), 0);
    assert_eq!(lib.selected_index(), 0);
}

#[test]
fn status_cycling_hits_only_the_selected_project() {
    let mut lib = library_of(&["a", "b", "c"]);
    lib.cycle_selected_project(CycleDirection::Down);
    lib.cycle_selected_project_status(CycleDirection::Up);
    assert_eq!(lib.project_at(0).status(), ProjectStatus::Idea);
    assert_eq!(lib.project_at(1).status(), ProjectStatus::InProgress);
    assert_eq!(lib.project_at(2).status(), ProjectStatus::Idea);
}

#[test]
fn add_project_keeps_selection_and_order() {
    let mut lib = library_of(&["a", "b"]);
    lib.cycle_selected_project(CycleDirection::Down);
    lib.add_project(Project::new("c", "third"));
    assert_eq!(lib.project_count(), 3);
    assert_eq!(lib.selected_index(), 1);
    assert_eq!(lib.project_at(2).name(), "c");
    assert_eq!(lib.project_at(2).description(), "third");
    assert_eq!(lib.project_at(2).status(), ProjectStatus::Idea);
}

#[test]
fn set_status_replaces_only_the_status() {
    let mut p = Project::new("n", "d");
    p.set_status(ProjectStatus::Paused);
    assert_eq!(p.status(), ProjectStatus::Paused);
    assert_eq!(p.name(), "n");
    assert_eq!(p.description(), "d");
}
