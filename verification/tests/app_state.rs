use ui::app_event::AppEvent;
use ui::app_state::{AppState, StateMachine};
use ui::components::dependency_cause_panel::DependencyCausePanel;
use ui::components::file_dependent_panel::FileDependentPanel;
use ui::components::file_panel::FilePanel;
use ui::components::search_input::State as SearchState;
use ui::dispatch::dispatch_event;
use ui::FileEntry;

fn widgets() -> (FilePanel, Option<FileDependentPanel>, DependencyCausePanel) {
    (
        FilePanel::new(None, None),
        Some(FileDependentPanel::new(String::from("source"), vec![])),
        DependencyCausePanel::new(Some(String::from("source"))),
    )
}

fn dispatch_events(state: &mut AppState, events: &[AppEvent]) -> Vec<AppEvent> {
    let (fp, fdp, dcp) = widgets();
    let mut produced = vec![];
    for event in events {
        let (mut evs, _req) = dispatch_event(state, event, &fp, &fdp, &dcp);
        produced.append(&mut evs);
    }
    produced
}

#[test]
fn app_state_select_file() {
    let mut state = AppState::new();

    let event = AppEvent::SelectFile(FileEntry {
        path: String::from("foo"),
        recompile_dependencies: vec![],
    });

    let produced = dispatch_events(&mut state, &[event]);
    assert_eq!(produced.len(), 0);
    assert_eq!(state.global.state_machine, StateMachine::FileDependentsView);
    assert_eq!(
        state.global.selected_dependency_source.unwrap().path,
        String::from("foo")
    );
}

#[test]
fn app_state_cancel() {
    let mut state = AppState::new();
    state.global.state_machine = StateMachine::FileDependentsView;
    state.global.selected_dependency_source = Some(FileEntry {
        path: String::from("foo"),
        recompile_dependencies: vec![],
    });

    let produced = dispatch_events(&mut state, &[AppEvent::Cancel]);
    assert_eq!(produced.len(), 0);
    assert!(state.global.selected_dependency_source.is_none());
}

#[test]
fn enter_search() {
    let mut state = AppState::new();

    let produced = dispatch_events(&mut state, &[AppEvent::EnterSearch]);

    assert_eq!(produced.len(), 0);
    assert!(state.global.file_panel_search.is_prompting());
}

#[test]
fn search_input() {
    let mut state = AppState::new();
    state.global.file_panel_search = SearchState::Prompt(String::new());

    let produced = dispatch_events(
        &mut state,
        &[
            AppEvent::SearchInput('f'),
            AppEvent::SearchInput('o'),
            AppEvent::SearchInput('o'),
        ],
    );

    assert_eq!(produced.len(), 0);
    assert_eq!(
        state.global.file_panel_search.prompt_input().unwrap(),
        String::from("foo")
    );
}

#[test]
fn search_input_delete() {
    let mut state = AppState::new();
    state.global.file_panel_search = SearchState::Prompt(String::from("foo"));

    let produced = dispatch_events(&mut state, &[AppEvent::SearchInputDelete]);
    assert_eq!(
        state.global.file_panel_search.prompt_input().unwrap(),
        String::from("fo")
    );

    let produced_b = dispatch_events(&mut state, &[AppEvent::SearchInputDelete]);
    assert_eq!(
        state.global.file_panel_search.prompt_input().unwrap(),
        String::from("f")
    );

    let produced_c = dispatch_events(&mut state, &[AppEvent::SearchInputDelete]);
    assert_eq!(
        state.global.file_panel_search.prompt_input().unwrap(),
        String::from("")
    );

    let produced_d = dispatch_events(&mut state, &[AppEvent::SearchInputDelete]);
    assert_eq!(
        state.global.file_panel_search.prompt_input().unwrap(),
        String::from("")
    );

    assert_eq!(
        produced.len() + produced_b.len() + produced_c.len() + produced_d.len(),
        0
    );
}

#[test]
fn search_submit() {
    let mut state = AppState::new();
    state.global.file_panel_search = SearchState::Prompt(String::from("foo"));

    let produced = dispatch_events(&mut state, &[AppEvent::SubmitSearch]);
    assert_eq!(
        state.global.file_panel_search,
        SearchState::Search(String::from("foo"))
    );
    assert_eq!(produced.len(), 0);
}

#[test]
fn cancel_search() {
    let mut state = AppState::new();
    state.global.file_panel_search = SearchState::Prompt(String::from("foo"));

    let produced = dispatch_events(&mut state, &[AppEvent::Cancel]);

    assert_eq!(produced.len(), 0);
    assert!(!state.global.file_panel_search.is_active());
}

#[test]
fn submit_search_select_file_then_search_again() {
    let mut state = AppState::new();
    state.global.file_panel_search = SearchState::Prompt(String::from("foo"));

    let produced = dispatch_events(
        &mut state,
        &[
            AppEvent::SubmitSearch,
            // Select file and move to the file dependents panel
            AppEvent::SelectFile(FileEntry {
                path: String::from("bar"),
                recompile_dependencies: vec![],
            }),
        ],
    );

    assert_eq!(state.global.state_machine, StateMachine::FileDependentsView);
    assert_eq!(
        state.global.file_panel_search,
        SearchState::Search(String::from("foo"))
    );

    let produced_b = dispatch_events(
        &mut state,
        &[
            AppEvent::EnterSearch,
            AppEvent::SearchInput('b'),
            AppEvent::SearchInput('a'),
            AppEvent::SearchInput('z'),
            AppEvent::SubmitSearch,
        ],
    );

    assert!(state.global.file_dependent_panel_search.is_active());
    assert_eq!(produced.len() + produced_b.len(), 0);
}

#[test]
fn submit_search_select_file_then_cancel_search() {
    let mut state = AppState::new();
    state.global.file_panel_search = SearchState::Prompt(String::from("foo"));

    let produced = dispatch_events(
        &mut state,
        &[
            AppEvent::SubmitSearch,
            // Select file and move to the file dependents panel
            AppEvent::SelectFile(FileEntry {
                path: String::from("bar"),
                recompile_dependencies: vec![],
            }),
        ],
    );

    assert_eq!(state.global.state_machine, StateMachine::FileDependentsView);
    assert_eq!(
        state.global.file_panel_search,
        SearchState::Search(String::from("foo"))
    );

    let produced_b = dispatch_events(&mut state, &[AppEvent::Cancel]);

    assert!(state.global.file_panel_search.is_active());
    assert_eq!(state.global.state_machine, StateMachine::FilePanelView);
    assert_eq!(produced.len() + produced_b.len(), 0);
}

#[test]
fn two_phase_search_commits_and_resets_cursor() {
    // From the file view with no search active: begin a search, type
    // 'f' 'o' 'o', commit. The query is committed and the file-list
    // cursor is back at the first row.
    let mut state = AppState::new();
    state.file_panel.selected_file_index = 2;

    let entries: Vec<FileEntry> = ["one", "two", "three"]
        .iter()
        .map(|f| FileEntry {
            path: f.to_string(),
            recompile_dependencies: vec![],
        })
        .collect();
    let fp = FilePanel::new(Some(entries), None);
    let fdp: Option<FileDependentPanel> = None;
    let dcp = DependencyCausePanel::new(None);

    for event in [
        AppEvent::EnterSearch,
        AppEvent::SearchInput('f'),
        AppEvent::SearchInput('o'),
        AppEvent::SearchInput('o'),
        AppEvent::SubmitSearch,
    ] {
        dispatch_event(&mut state, &event, &fp, &fdp, &dcp);
    }

    assert_eq!(
        state.global.file_panel_search,
        SearchState::Search(String::from("foo"))
    );
    assert_eq!(state.file_panel.selected_file_index, 0);
}

#[test]
fn cancel_precedence_in_dependents_view() {
    // In the dependents view with a committed dependents search, the
    // first cancel clears only the search; the second pops back to the
    // file view and clears the navigation anchor.
    let mut state = AppState::new();
    state.global.state_machine = StateMachine::FileDependentsView;
    state.global.selected_dependency_source = Some(FileEntry {
        path: String::from("foo"),
        recompile_dependencies: vec![],
    });
    state.global.file_dependent_panel_search = SearchState::Search(String::from("bar"));

    dispatch_events(&mut state, &[AppEvent::Cancel]);
    assert_eq!(state.global.state_machine, StateMachine::FileDependentsView);
    assert!(!state.global.file_dependent_panel_search.is_active());
    assert!(state.global.selected_dependency_source.is_some());

    dispatch_events(&mut state, &[AppEvent::Cancel]);
    assert_eq!(state.global.state_machine, StateMachine::FilePanelView);
    assert!(state.global.selected_dependency_source.is_none());
}
