use ui::app_event::AppEvent;
use ui::components::file_panel::{FilePanel, State};
use ui::FileEntry;

fn file_entries(files: &[&str]) -> Vec<FileEntry> {
    files
        .iter()
        .map(|f| FileEntry {
            path: f.to_string(),
            recompile_dependencies: vec![],
        })
        .collect()
}

#[test]
fn up_button() {
    let mut state = State::new();
    state.selected_file_index = 1;

    state.handle_event(
        &AppEvent::UpButtonPressed,
        &FilePanel::new(Some(file_entries(&["one", "two", "three"])), None),
    );
    assert_eq!(state.selected_file_index, 0);
}

#[test]
fn up_button_limit() {
    let mut state = State::new();
    state.selected_file_index = 0;

    state.handle_event(
        &AppEvent::UpButtonPressed,
        &FilePanel::new(Some(file_entries(&["one", "two", "three"])), None),
    );
    assert_eq!(state.selected_file_index, 0);
}

#[test]
fn down_button() {
    let mut state = State::new();
    state.selected_file_index = 1;

    state.handle_event(
        &AppEvent::DownButtonPressed,
        &FilePanel::new(Some(file_entries(&["one", "two", "three"])), None),
    );
    assert_eq!(state.selected_file_index, 2);
}

#[test]
fn down_button_limit() {
    let mut state = State::new();
    state.selected_file_index = 2;

    state.handle_event(
        &AppEvent::DownButtonPressed,
        &FilePanel::new(Some(file_entries(&["one", "two", "three"])), None),
    );
    assert_eq!(state.selected_file_index, 2);
}
