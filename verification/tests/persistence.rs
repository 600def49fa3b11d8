use projectlib::codec::PersistenceError;
use projectlib::library::ProjectLibrary;
use projectlib::project::Project;
use projectlib::status::{CycleDirection, ProjectStatus};

#[test]
fn empty_library_document_is_an_empty_list() {
    let lib = ProjectLibrary::default();
    assert_eq!(lib.to_document(), "projects = []\n");
}

#[test]
fn one_project_document_exact_form() {
    let mut lib = ProjectLibrary::default();
    lib.add_project(Project::new("Website", "Personal site"));
    assert_eq!(
        lib.to_document(),
        "[[projects]]\nname = \"Website\"\ndescription = \"Personal site\"\nstatus = \"idea\"\n"
    );
}

#[test]
fn document_escapes_special_characters() {
    let mut lib = ProjectLibrary::default();
    lib.add_project(Project::new("a\"b\\c", "line1\nline2\tend\r"));
    assert_eq!(
        lib.to_document(),
        "[[projects]]\nname = \"a\\\"b\\\\c\"\ndescription = \"line1\\nline2\\tend\\r\"\nstatus = \"idea\"\n"
    );
}

#[test]
fn round_trip_restores_projects_and_resets_selection() {
    let mut lib = ProjectLibrary::default();
    lib.add_project(Project::new("Website", "Personal site"));
    lib.add_project(Project::new("CLI Tool", ""));
    lib.add_project(Project::new("quo\"te", "back\\slash and\nnewline"));
    lib.cycle_selected_project_status(CycleDirection::Up);
    lib.cycle_selected_project(CycleDirection::Down);
    lib.cycle_selected_project(CycleDirection::Down);
    lib.cycle_selected_project_status(CycleDirection::Down);
    assert_eq!(lib.selected_index(), 2);

    let doc = lib.to_document();
    let loaded = ProjectLibrary::from_document(&doc).unwrap();
    assert_eq!(loaded.selected_index(), 0);
    assert_eq!(loaded.project_count(), 3);
    for i in 0..3 {
        assert_eq!(loaded.project_at(i).name(), lib.project_at(i).name());
        assert_eq!(loaded.project_at(i).description(), lib.project_at(i).description());
        assert_eq!(loaded.project_at(i).status(), lib.project_at(i).status());
    }
    assert_eq!(loaded.project_at(0).status(), ProjectStatus::InProgress);
    assert_eq!(loaded.project_at(2).status(), ProjectStatus::Paused);
}

#[test]
fn round_trip_of_the_empty_library() {
    let doc = ProjectLibrary::default().to_document();
    let loaded = ProjectLibrary::from_document(&doc).unwrap();
    assert_eq!(loaded.project_count(), 0);
    assert_eq!(loaded.selected_index(), 0);
}

#[test]
fn every_status_survives_a_round_trip() {
    let mut lib = ProjectLibrary::default();
    for (name, status) in [
        ("a", ProjectStatus::Idea),
        ("b", ProjectStatus::InProgress),
        ("c", ProjectStatus::Finished),
        ("d", ProjectStatus::Paused),
    ] {
        let mut p = Project::new(name, "");
        p.set_status(status);
        lib.add_project(p);
    }
    let loaded = ProjectLibrary::from_document(&lib.to_document()).unwrap();
    assert_eq!(loaded.project_at(0).status(), ProjectStatus::Idea);
    assert_eq!(loaded.project_at(1).status(), ProjectStatus::InProgress);
    assert_eq!(loaded.project_at(2).status(), ProjectStatus::Finished);
    assert_eq!(loaded.project_at(3).status(), ProjectStatus::Paused);
}

#[test]
fn unknown_status_token_is_a_schema_error() {
    let doc = "[[projects]]\nname = \"a\"\ndescription = \"b\"\nstatus = \"done\"\n";
    assert_eq!(ProjectLibrary::from_document(doc).unwrap_err(), PersistenceError::Schema);
}

#[test]
fn missing_field_is_a_schema_error() {
    let doc = "[[projects]]\nname = \"a\"\nstatus = \"idea\"\n";
    assert_eq!(ProjectLibrary::from_document(doc).unwrap_err(), PersistenceError::Schema);
}

#[test]
fn unterminated_string_is_a_schema_error() {
    let doc = "[[projects]]\nname = \"a\ndescription = \"b\"\nstatus = \"idea\"\n";
    assert_eq!(ProjectLibrary::from_document(doc).unwrap_err(), PersistenceError::Schema);
}

#[test]
fn bad_escape_is_a_schema_error() {
    let doc = "[[projects]]\nname = \"a\\z\"\ndescription = \"b\"\nstatus = \"idea\"\n";
    assert_eq!(ProjectLibrary::from_document(doc).unwrap_err(), PersistenceError::Schema);
}

#[test]
fn empty_document_is_a_schema_error() {
    assert_eq!(ProjectLibrary::from_document("").unwrap_err(), PersistenceError::Schema);
}

#[test]
fn trailing_text_after_empty_list_is_a_schema_error() {
    let doc = "projects = []\nname = \"a\"\n";
    assert_eq!(ProjectLibrary::from_document(doc).unwrap_err(), PersistenceError::Schema);
}

#[test]
fn parsed_escapes_restore_raw_characters() {
    let doc = "[[projects]]\nname = \"a\\\"b\\\\c\"\ndescription = \"x\\ny\\tz\\r\"\nstatus = \"paused\"\n";
    let loaded = ProjectLibrary::from_document(doc).unwrap();
    assert_eq!(loaded.project_at(0).name(), "a\"b\\c");
    assert_eq!(loaded.project_at(0).description(), "x\ny\tz\r");
    assert_eq!(loaded.project_at(0).status(), ProjectStatus::Paused);
}

#[test]
fn error_messages_are_not_empty() {
    assert!(!PersistenceError::Unreadable.message().is_empty());
    assert!(!PersistenceError::Unwritable.message().is_empty());
    assert!(!PersistenceError::Schema.message().is_empty());
}
