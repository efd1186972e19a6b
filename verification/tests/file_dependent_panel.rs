use ui::app_event::AppEvent;
use ui::components::file_dependent_panel::{FileDependentPanel, State};
use ui::{DependencyLink, DependencyType, RecomplileDependency, RecomplileDependencyReason};

fn widget() -> FileDependentPanel {
    FileDependentPanel::new(
        String::from("source"),
        recompile_dependencies(&["one", "two", "three"]),
    )
}

fn recompile_dependencies(files: &[&str]) -> Vec<RecomplileDependency> {
    files
        .iter()
        .map(|f| RecomplileDependency {
            id: f.to_string(),
            path: f.to_string(),
            reason: RecomplileDependencyReason::Compile,
            dependency_chain: vec![],
        })
        .collect()
}

fn dependency_chain() -> Vec<DependencyLink> {
    vec![
        DependencyLink {
            source: String::from("source"),
            sink: String::from("two.one"),
            dependency_type: DependencyType::Compile,
        },
        DependencyLink {
            source: String::from("two.one"),
            sink: String::from("two.two"),
            dependency_type: DependencyType::Compile,
        },
        DependencyLink {
            source: String::from("two.two"),
            sink: String::from("two.three"),
            dependency_type: DependencyType::Compile,
        },
    ]
}

#[test]
fn up_button_no_expand() {
    let mut state = State::new();
    state.selected_file_index = (1, None);

    let events = state.handle_event(&AppEvent::UpButtonPressed, &widget());
    assert_eq!(state.selected_file_index, (0, None));
    assert_eq!(events.len(), 0);
}

#[test]
fn up_button_with_expand() {
    let mut files = recompile_dependencies(&["one", "two", "three"]);
    files[1].dependency_chain = dependency_chain();
    let widget = FileDependentPanel::new(String::from("source"), files);

    let mut state = State::new();
    state.expanded_file = Some(String::from("two"));
    state.selected_file_index = (1, Some(1));

    let events = state.handle_event(&AppEvent::UpButtonPressed, &widget);
    assert_eq!(state.selected_file_index, (1, Some(0)));

    assert_eq!(events.len(), 2);
    if let AppEvent::ViewDependentFile(ref dependency_link) = events[0] {
        assert_eq!(dependency_link.sink, "two.one");
    }

    if let AppEvent::StopViewDependentFile(ref dependency_link) = events[1] {
        assert_eq!(dependency_link.sink, "two.two");
    }
}

#[test]
fn up_button_out_of_expand_list() {
    let mut files = recompile_dependencies(&["one", "two", "three"]);
    files[1].dependency_chain = dependency_chain();
    let widget = FileDependentPanel::new(String::from("source"), files);

    let mut state = State::new();
    state.expanded_file = Some(String::from("two"));
    state.selected_file_index = (1, Some(0));

    let events = state.handle_event(&AppEvent::UpButtonPressed, &widget);
    assert_eq!(state.selected_file_index, (1, None));
    assert_eq!(events.len(), 1);
    if let AppEvent::StopViewDependentFile(ref dependency_link) = events[0] {
        assert_eq!(dependency_link.sink, "two.one");
    }
}

#[test]
fn up_button_into_expand_list() {
    let mut files = recompile_dependencies(&["one", "two", "three"]);
    files[1].dependency_chain = dependency_chain();
    let widget = FileDependentPanel::new(String::from("source"), files);

    let mut state = State::new();
    state.expanded_file = Some(String::from("two"));
    state.selected_file_index = (2, None);

    let events = state.handle_event(&AppEvent::UpButtonPressed, &widget);
    assert_eq!(state.selected_file_index, (1, Some(2)));
    assert_eq!(events.len(), 1);
    if let AppEvent::ViewDependentFile(ref dependency_link) = events[0] {
        assert_eq!(dependency_link.sink, "two.three");
    }
}

#[test]
fn up_button_limit_no_expand() {
    let mut state = State::new();
    state.selected_file_index = (0, None);

    let events = state.handle_event(&AppEvent::UpButtonPressed, &widget());
    assert_eq!(state.selected_file_index, (0, None));
    assert_eq!(events.len(), 0);
}

#[test]
fn down_button_no_expand() {
    let mut state = State::new();
    state.selected_file_index = (1, None);

    let events = state.handle_event(&AppEvent::DownButtonPressed, &widget());
    assert_eq!(state.selected_file_index, (2, None));
    assert_eq!(events.len(), 0);
}

#[test]
fn down_button_limit_no_expand() {
    let mut state = State::new();
    state.selected_file_index = (2, None);

    let events = state.handle_event(&AppEvent::DownButtonPressed, &widget());
    assert_eq!(state.selected_file_index, (2, None));
    assert_eq!(events.len(), 0);
}

#[test]
fn down_button_with_expand_list() {
    let mut files = recompile_dependencies(&["one", "two", "three"]);
    files[1].dependency_chain = dependency_chain();
    let widget = FileDependentPanel::new(String::from("source"), files);

    let mut state = State::new();
    state.expanded_file = Some(String::from("two"));
    state.selected_file_index = (1, Some(1));

    let events = state.handle_event(&AppEvent::DownButtonPressed, &widget);
    assert_eq!(state.selected_file_index, (1, Some(2)));

    assert_eq!(events.len(), 2);

    if let AppEvent::ViewDependentFile(ref dependency_link) = events[0] {
        assert_eq!(dependency_link.sink, "two.three");
    }

    if let AppEvent::StopViewDependentFile(ref dependency_link) = events[1] {
        assert_eq!(dependency_link.sink, "two.two");
    }
}

#[test]
fn down_button_out_expand_list() {
    let mut files = recompile_dependencies(&["one", "two", "three"]);
    files[1].dependency_chain = dependency_chain();
    let widget = FileDependentPanel::new(String::from("source"), files);

    let mut state = State::new();
    state.expanded_file = Some(String::from("two"));
    state.selected_file_index = (1, Some(2));

    let events = state.handle_event(&AppEvent::DownButtonPressed, &widget);
    assert_eq!(state.selected_file_index, (2, None));

    assert_eq!(events.len(), 1);

    if let AppEvent::StopViewDependentFile(ref dependency_link) = events[0] {
        assert_eq!(dependency_link.sink, "two.three");
    }
}

#[test]
fn down_button_into_expand_list() {
    let mut files = recompile_dependencies(&["one", "two", "three"]);
    files[1].dependency_chain = dependency_chain();
    let widget = FileDependentPanel::new(String::from("source"), files);

    let mut state = State::new();
    state.expanded_file = Some(String::from("two"));
    state.selected_file_index = (1, None);

    let events = state.handle_event(&AppEvent::DownButtonPressed, &widget);
    assert_eq!(state.selected_file_index, (1, Some(0)));

    assert_eq!(events.len(), 1);

    if let AppEvent::ViewDependentFile(ref dependency_link) = events[0] {
        assert_eq!(dependency_link.sink, "two.one");
    }
}

#[test]
fn expand_file_from_initial() {
    let recompile_dependencies = recompile_dependencies(&["one", "two", "three"]);
    let widget = FileDependentPanel::new(String::from("source"), recompile_dependencies.clone());

    let mut state = State::new();
    let event = AppEvent::SelectDependentFile(recompile_dependencies[0].clone());
    state.handle_event(&event, &widget);
    assert_eq!(state.expanded_file, Some(String::from("one")));
}

#[test]
fn expand_file_when_already_expanded() {
    let recompile_dependencies = recompile_dependencies(&["one", "two", "three"]);
    let widget = FileDependentPanel::new(String::from("source"), recompile_dependencies.clone());

    let mut state = State::new();
    state.expanded_file = Some(String::from("two"));

    let event = AppEvent::SelectDependentFile(recompile_dependencies[0].clone());
    state.handle_event(&event, &widget);
    assert_eq!(state.expanded_file, Some(String::from("one")));
}

#[test]
fn collapse_file() {
    let recompile_dependencies = recompile_dependencies(&["one", "two", "three"]);
    let widget = FileDependentPanel::new(String::from("source"), recompile_dependencies.clone());

    let mut state = State::new();
    state.expanded_file = Some(String::from("two"));

    let event = AppEvent::SelectDependentFile(recompile_dependencies[1].clone());
    state.handle_event(&event, &widget);
    assert_eq!(state.expanded_file, None);
}

#[test]
fn cancel_reset_state() {
    let recompile_dependencies = recompile_dependencies(&["one", "two", "three"]);
    let widget = FileDependentPanel::new(String::from("source"), recompile_dependencies);

    let mut state = State::new();
    state.selected_file_index = (2, None);

    state.handle_event(&AppEvent::Cancel, &widget);
    assert_eq!(state.expanded_file, None);
    assert_eq!(state.selected_file_index, (0, None));
    assert_eq!(state.selected_file_index, (0, None));
    assert_eq!(state.expanded_file, None);
}

#[test]
fn down_at_last_link_of_last_entry_stops_viewing() {
    // At the last chain link of the last outer entry, a move down still
    // announces the stop of that link and steps out of the chain; only
    // the move onto a next row is skipped, there being none.
    let mut files = recompile_dependencies(&["one", "two", "three"]);
    files[2].dependency_chain = dependency_chain();
    let widget = FileDependentPanel::new(String::from("source"), files);

    let mut state = State::new();
    state.expanded_file = Some(String::from("three"));
    state.selected_file_index = (2, Some(2));

    let events = state.handle_event(&AppEvent::DownButtonPressed, &widget);
    assert_eq!(state.selected_file_index, (2, None));
    assert_eq!(events.len(), 1);
    match &events[0] {
        AppEvent::StopViewDependentFile(link) => assert_eq!(link.sink, "two.three"),
        other => panic!("expected a stop-view event, got {:?}", other),
    }
}

#[test]
fn committing_a_search_resets_the_cursor() {
    // Committing the dependents search moves the two-level cursor back to
    // the first row — the filtered listing may be shorter — while the
    // expansion itself is kept.
    let mut files = recompile_dependencies(&["one", "two", "three"]);
    files[1].dependency_chain = dependency_chain();
    let widget = FileDependentPanel::new(String::from("source"), files);

    let mut state = State::new();
    state.expanded_file = Some(String::from("two"));
    state.selected_file_index = (1, Some(1));

    let events = state.handle_event(&AppEvent::SubmitSearch, &widget);
    assert_eq!(state.selected_file_index, (0, None));
    assert_eq!(state.expanded_file, Some(String::from("two")));
    assert_eq!(events.len(), 0);
}

#[test]
fn chain_walk_emits_stop_before_start() {
    // Navigator over 3 entries, entry[1] expanded with a 3-link chain,
    // cursor (1, Some(1)): one move down emits exactly stop of the second
    // link then start of the third, and a further move down leaves the
    // chain with only a stop.
    let mut files = recompile_dependencies(&["one", "two", "three"]);
    files[1].dependency_chain = dependency_chain();
    let widget = FileDependentPanel::new(String::from("source"), files);

    let mut state = State::new();
    state.expanded_file = Some(String::from("two"));
    state.selected_file_index = (1, Some(1));

    let events = state.handle_event(&AppEvent::DownButtonPressed, &widget);
    assert_eq!(state.selected_file_index, (1, Some(2)));
    assert_eq!(events.len(), 2);
    match &events[0] {
        AppEvent::StopViewDependentFile(link) => assert_eq!(link.sink, "two.two"),
        other => panic!("expected a stop-view event, got {:?}", other),
    }
    match &events[1] {
        AppEvent::ViewDependentFile(link) => assert_eq!(link.sink, "two.three"),
        other => panic!("expected a view event, got {:?}", other),
    }

    let events = state.handle_event(&AppEvent::DownButtonPressed, &widget);
    assert_eq!(state.selected_file_index, (2, None));
    assert_eq!(events.len(), 1);
    match &events[0] {
        AppEvent::StopViewDependentFile(link) => assert_eq!(link.sink, "two.three"),
        other => panic!("expected a stop-view event, got {:?}", other),
    }
}
