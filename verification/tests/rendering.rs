use projectlib::library::ProjectLibrary;
use projectlib::project::Project;
use projectlib::project_list::ProjectList;
use projectlib::status::{CycleDirection, ProjectStatus, StatusColor};

#[test]
fn symbols_follow_the_fixed_mapping() {
    let s = ProjectStatus::Finished.to_symbol();
    assert_eq!(s.glyph, '✔');
    assert_eq!(s.color, StatusColor::Green);
    let s = ProjectStatus::InProgress.to_symbol();
    assert_eq!(s.glyph, '-');
    assert_eq!(s.color, StatusColor::Yellow);
    let s = ProjectStatus::Paused.to_symbol();
    assert_eq!(s.glyph, 'X');
    assert_eq!(s.color, StatusColor::Red);
    let s = ProjectStatus::Idea.to_symbol();
    assert_eq!(s.glyph, '!');
    assert_eq!(s.color, StatusColor::White);
}

#[test]
fn labels_are_human_readable() {
    assert_eq!(ProjectStatus::Finished.label(), "Finished");
    assert_eq!(ProjectStatus::InProgress.label(), "In Progress");
    assert_eq!(ProjectStatus::Paused.label(), "Paused");
    assert_eq!(ProjectStatus::Idea.label(), "Idea");
}

#[test]
fn empty_library_renders_an_empty_detail_pane() {
    let view = ProjectLibrary::default().render_view();
    assert!(view.entries.is_empty());
    assert!(view.detail.is_none());
    assert_eq!(view.list_percent, 30);
    assert_eq!(view.detail_percent, 70);
}

#[test]
fn add_then_cycle_then_add_scenario() {
    let mut lib = ProjectLibrary::default();
    lib.add_project(Project::new("Website", "Personal site"));

    let view = lib.render_view();
    let detail = view.detail.as_ref().unwrap();
    assert_eq!(detail.name, "Website");
    assert_eq!(detail.status_label, "Idea");
    assert_eq!(detail.description, "Personal site");

    lib.cycle_selected_project_status(CycleDirection::Up);
    let view = lib.render_view();
    assert_eq!(view.detail.as_ref().unwrap().status_label, "In Progress");

    lib.add_project(Project::new("CLI Tool", ""));
    let view = lib.render_view();
    assert_eq!(view.entries.len(), 2);
    assert_eq!(view.entries[0].text, "- Website");
    assert_eq!(view.entries[1].text, "! CLI Tool");
    assert!(view.entries[0].selected);
    assert!(!view.entries[1].selected);
    assert_eq!(lib.selected_index(), 0);
    assert_eq!(view.detail.as_ref().unwrap().name, "Website");
}

#[test]
fn exactly_the_selected_entry_is_marked() {
    let mut lib = ProjectLibrary::default();
    lib.add_project(Project::new("a", ""));
    lib.add_project(Project::new("b", ""));
    lib.add_project(Project::new("c", ""));
    lib.cycle_selected_project(CycleDirection::Down);
    let view = lib.render_view();
    assert!(!view.entries[0].selected);
    assert!(view.entries[1].selected);
    assert!(!view.entries[2].selected);
    assert_eq!(view.detail.as_ref().unwrap().name, "b");
}

#[test]
fn entry_text_prefixes_the_status_glyph() {
    let mut p = Project::new("Site", "d");
    p.set_status(ProjectStatus::Finished);
    let entry = p.to_list_item();
    assert_eq!(entry.text, "✔ Site");
    assert_eq!(entry.color, StatusColor::Green);
    assert!(!entry.selected);
}

#[test]
fn flat_list_add_and_display() {
    let mut list = ProjectList::default();
    list.add_project("Garden".to_string(), "weeding".to_string());
    list.add_project("Attic".to_string(), String::new());
    assert_eq!(list.project_count(), 2);
    assert_eq!(list.project_at(0).to_string(), "[ ] Garden");
    assert_eq!(list.project_at(1).to_string(), "[ ] Attic");
}
