use ui::components::search_input::State as SearchState;
use ui::utils::{compact_file_path, filter_files_list};
use ui::FileEntry;

fn term(input: &str) -> SearchState {
    SearchState::Search(String::from(input))
}

fn file_entries(files: &[&str]) -> Vec<FileEntry> {
    files
        .iter()
        .map(|f| FileEntry {
            path: f.to_string(),
            recompile_dependencies: vec![],
        })
        .collect()
}

#[test]
fn no_truncate() {
    let path = "a/b/c/d";
    let result = compact_file_path(path, 8);
    assert_eq!(result, "a/b/c/d");
}

#[test]
fn truncate() {
    let path = "a/b/c/d";
    let result = compact_file_path(path, 5);
    assert_eq!(result, ".../d");
}

#[test]
fn truncate_keeps_trailing_pieces() {
    let path = "deeply/nested/src/module/file.ex";
    let result = compact_file_path(path, 18);
    assert_eq!(result, ".../module/file.ex");
}

#[test]
fn truncate_to_bare_ellipsis() {
    let path = "long_component/x";
    let result = compact_file_path(path, 3);
    assert_eq!(result, "...");
}

#[test]
fn found_one() {
    let files = file_entries(&["one", "two", "three"]);
    let filtered: Vec<String> = filter_files_list(&files, &term("one"))
        .into_iter()
        .map(|f| f.path)
        .collect();

    assert_eq!(filtered, vec!["one"]);
}

#[test]
fn found_many_and_sort_score() {
    let files = file_entries(&["one", "two_one", "three_two"]);
    let filtered: Vec<String> = filter_files_list(&files, &term("one"))
        .into_iter()
        .map(|f| f.path)
        .collect();

    assert_eq!(filtered, vec!["one", "two_one"]);
}

#[test]
fn found_none() {
    let files = file_entries(&["one", "two", "three"]);
    let filtered: Vec<String> = filter_files_list(&files, &term("four"))
        .into_iter()
        .map(|f| f.path)
        .collect();

    assert!(filtered.is_empty());
}

#[test]
fn no_committed_search_keeps_everything() {
    let files = file_entries(&["one", "two", "three"]);
    let filtered: Vec<String> = filter_files_list(&files, &SearchState::Idle)
        .into_iter()
        .map(|f| f.path)
        .collect();

    assert_eq!(filtered, vec!["one", "two", "three"]);
}
