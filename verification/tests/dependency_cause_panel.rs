use ui::app_event::AppEvent;
use ui::components::dependency_cause_panel::{DependencyCausePanel, State};
use ui::{
    CodeSnippet, DependencyCause, DependencyLink, DependencyType, RecomplileDependency,
    RecomplileDependencyReason,
};

fn widget() -> DependencyCausePanel {
    DependencyCausePanel::new(Some(String::from("source")))
}

#[test]
fn dependency_cause_panel_select_file() {
    let snippets = vec![CodeSnippet {
        content: String::from("content"),
        highlight: (2, 2),
        lines_span: (1, 3),
    }];

    let mut state = State::new();

    let event = AppEvent::SelectDependentFile(RecomplileDependency {
        id: String::from("id"),
        path: String::from("recompile_dependency"),
        reason: RecomplileDependencyReason::Compile,
        dependency_chain: vec![],
    });
    let request = state.handle_event(&event, &widget());

    // the selected dependent asks the server for its causes; the answer
    // arrives as a completion event carrying the snippets
    let causes = match request {
        Some(_request) => vec![DependencyCause {
            source: String::from("source"),
            sink: String::from("sink"),
            dependency_type: DependencyType::Compile,
            snippets: snippets.clone(),
        }],
        None => panic!("Expected GetDependencyCausesDone event"),
    };
    assert_eq!(causes[0].snippets, snippets);

    state.handle_event(&AppEvent::GetDependencyCausesDone(causes), &widget());
    assert_eq!(state.dependency_causes[0].snippets, snippets);
}

#[test]
fn reversed_request_for_selected_dependent() {
    // The cause lookup is anchored at the browsed file: the request's
    // source is the dependent's path and its sink the anchor.
    let mut state = State::new();
    let event = AppEvent::SelectDependentFile(RecomplileDependency {
        id: String::from("id"),
        path: String::from("recompile_dependency"),
        reason: RecomplileDependencyReason::Exports,
        dependency_chain: vec![],
    });
    let request = state.handle_event(&event, &widget()).unwrap();
    assert_eq!(request.source, String::from("recompile_dependency"));
    assert_eq!(request.sink, String::from("source"));
    assert_eq!(request.reason, RecomplileDependencyReason::Exports);
}

#[test]
fn view_dependent_file() {
    let mut state = State::new();

    let event = AppEvent::ViewDependentFile(DependencyLink {
        source: String::from("source"),
        sink: String::from("sink"),
        dependency_type: DependencyType::Compile,
    });
    let request = state.handle_event(&event, &widget());

    assert_eq!(
        state.viewing_recompile_dependency_file,
        Some(String::from("sink"))
    );
    assert!(request.is_none());
}

#[test]
fn dependency_cause_panel_cancel() {
    let mut state = State::new();
    state.dependency_causes = vec![DependencyCause {
        source: String::from("source"),
        sink: String::from("sink"),
        dependency_type: DependencyType::Compile,
        snippets: vec![],
    }];

    let request = state.handle_event(&AppEvent::Cancel, &widget());
    assert_eq!(state.dependency_causes.len(), 0);
    assert!(request.is_none());
}
