use ui::app_event::{AppEvent, KeyInput};
use ui::app_state::{AppState, StateMachine};
use ui::components::dependency_cause_panel::DependencyCausePanel;
use ui::components::file_dependent_panel::FileDependentPanel;
use ui::components::file_panel::FilePanel;
use ui::components::search_input::State as SearchState;
use ui::dispatch::{get_dependent_files_list, get_files_list, process_event};
use ui::{FileEntry, RecomplileDependency, RecomplileDependencyReason};

fn dependents(files: &[&str]) -> Vec<RecomplileDependency> {
    files
        .iter()
        .map(|f| RecomplileDependency {
            id: f.to_string(),
            path: f.to_string(),
            reason: RecomplileDependencyReason::Compile,
            dependency_chain: vec![],
        })
        .collect()
}

#[test]
fn selecting_a_dependent_issues_one_request() {
    let mut state = AppState::new();
    state.global.state_machine = StateMachine::FileDependentsView;

    let listing = dependents(&["one", "two"]);
    let fp = FilePanel::new(None, None);
    let fdp = Some(FileDependentPanel::new(
        String::from("anchor"),
        listing.clone(),
    ));
    let dcp = DependencyCausePanel::new(Some(String::from("anchor")));

    let event = AppEvent::SelectDependentFile(listing[0].clone());
    let requests = process_event(&mut state, &event, &fp, &fdp, &dcp);

    assert_eq!(requests.len(), 1);
    assert_eq!(requests[0].source, String::from("one"));
    assert_eq!(requests[0].sink, String::from("anchor"));
    assert_eq!(requests[0].reason, RecomplileDependencyReason::Compile);
    // the toggle also expanded the entry
    assert_eq!(
        state.file_dependent_panel.expanded_file,
        Some(String::from("one"))
    );
}

#[test]
fn follow_up_view_event_reaches_the_cause_panel() {
    // moving down into an expanded chain emits a view event, which the
    // dispatcher forwards to the cause panel within the same step
    let mut state = AppState::new();
    state.global.state_machine = StateMachine::FileDependentsView;

    let mut listing = dependents(&["one", "two"]);
    listing[1].dependency_chain = vec![ui::DependencyLink {
        source: String::from("anchor"),
        sink: String::from("two.one"),
        dependency_type: ui::DependencyType::Compile,
    }];
    state.file_dependent_panel.selected_file_index = (1, None);
    state.file_dependent_panel.expanded_file = Some(String::from("two"));

    let fp = FilePanel::new(None, None);
    let fdp = Some(FileDependentPanel::new(String::from("anchor"), listing));
    let dcp = DependencyCausePanel::new(Some(String::from("anchor")));

    let requests = process_event(&mut state, &AppEvent::DownButtonPressed, &fp, &fdp, &dcp);

    assert_eq!(requests.len(), 0);
    assert_eq!(state.file_dependent_panel.selected_file_index, (1, Some(0)));
    assert_eq!(
        state.dependency_cause_panel.viewing_recompile_dependency_file,
        Some(String::from("two.one"))
    );
}

#[test]
fn keys_map_to_intents() {
    let state = AppState::new();
    assert_eq!(
        state.global.produce_event(&KeyInput::Char('j')),
        Some(AppEvent::DownButtonPressed)
    );
    assert_eq!(
        state.global.produce_event(&KeyInput::Char('k')),
        Some(AppEvent::UpButtonPressed)
    );
    assert_eq!(
        state.global.produce_event(&KeyInput::Char('/')),
        Some(AppEvent::EnterSearch)
    );
    assert_eq!(
        state.global.produce_event(&KeyInput::Char('q')),
        Some(AppEvent::Quit)
    );
    assert_eq!(
        state.global.produce_event(&KeyInput::Esc),
        Some(AppEvent::Cancel)
    );
    assert_eq!(state.global.produce_event(&KeyInput::Enter), None);
    assert_eq!(state.global.produce_event(&KeyInput::Backspace), None);
    assert_eq!(state.global.produce_event(&KeyInput::Other), None);
}

#[test]
fn keys_feed_an_open_prompt() {
    let mut state = AppState::new();
    state.global.file_panel_search = SearchState::Prompt(String::from("fo"));
    assert_eq!(
        state.global.produce_event(&KeyInput::Char('o')),
        Some(AppEvent::SearchInput('o'))
    );
    assert_eq!(
        state.global.produce_event(&KeyInput::Backspace),
        Some(AppEvent::SearchInputDelete)
    );
    assert_eq!(
        state.global.produce_event(&KeyInput::Enter),
        Some(AppEvent::SubmitSearch)
    );
}

#[test]
fn files_list_title_counts_matches() {
    let mut state = AppState::new();
    state.global.files_list = Some(
        ["one", "two_one", "three_two"]
            .iter()
            .map(|f| FileEntry {
                path: f.to_string(),
                recompile_dependencies: vec![],
            })
            .collect(),
    );
    state.global.file_panel_search = SearchState::Search(String::from("one"));

    let (filtered, title) = get_files_list(&state);
    let filtered: Vec<String> = filtered.unwrap().into_iter().map(|f| f.path).collect();
    assert_eq!(filtered, vec!["one", "two_one"]);
    assert_eq!(title, Some(String::from(" (2 of 3)")));
}

#[test]
fn files_list_without_search_has_no_title() {
    let mut state = AppState::new();
    state.global.files_list = Some(vec![FileEntry {
        path: String::from("one"),
        recompile_dependencies: vec![],
    }]);

    let (filtered, title) = get_files_list(&state);
    assert_eq!(filtered.unwrap().len(), 1);
    assert_eq!(title, None);
}

#[test]
fn dependents_list_filters_by_the_dependents_search() {
    let mut state = AppState::new();
    state.global.file_dependent_panel_search = SearchState::Search(String::from("one"));

    let entry = FileEntry {
        path: String::from("anchor"),
        recompile_dependencies: dependents(&["one", "two_one", "three_two"]),
    };
    let (filtered, title) = get_dependent_files_list(&state, &entry);
    let filtered: Vec<String> = filtered.into_iter().map(|d| d.path).collect();
    assert_eq!(filtered, vec!["one", "two_one"]);
    assert_eq!(title, Some(String::from(" (2 of 3)")));
}
