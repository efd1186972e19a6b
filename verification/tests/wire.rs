use ui::adapter::{NoopAdapter, RequestTracker, ServerAdapter};
use ui::wire::{
    decode_dependency_causes, decode_file_entries, encode_dependency_cause,
    encode_dependency_causes, match_response_line, WireError,
};
use ui::{CodeSnippet, DependencyCause, DependencyType, RecomplileDependencyReason};

#[test]
fn sequence_ids_strictly_increase_from_zero() {
    // Every request issued by one adapter instance carries the next id,
    // starting at 0.
    let mut tracker = RequestTracker::new();
    let (id0, _line0) = tracker.init_request();
    let (id1, _line1) = tracker.get_files_request();
    let (id2, _line2) = tracker.get_dependency_causes_request(
        &String::from("a"),
        &String::from("b"),
        &RecomplileDependencyReason::Compile,
    );
    assert_eq!(id0, 0);
    assert_eq!(id1, 1);
    assert_eq!(id2, 2);
}

#[test]
fn cause_request_serializes_exactly() {
    let mut tracker = RequestTracker::new();
    let (_id, line) = tracker.get_dependency_causes_request(
        &String::from("lib/a.ex"),
        &String::from("lib/b.ex"),
        &RecomplileDependencyReason::ExportsThenCompile,
    );
    assert_eq!(
        line,
        "C[0]:{\"type\":\"get_dependency_causes\",\"source\":\"lib/a.ex\",\"sink\":\"lib/b.ex\",\"reason\":\"exports_then_compile\"}\n"
    );
}

#[test]
fn init_and_listing_requests_serialize_exactly() {
    let mut tracker = RequestTracker::new();
    let (_i, init_line) = tracker.init_request();
    let (_j, files_line) = tracker.get_files_request();
    assert_eq!(init_line, "C[0]:{\"type\":\"init\"}\n");
    assert_eq!(files_line, "C[1]:{\"type\":\"get_files\"}\n");
}

#[test]
fn response_resolves_only_on_matching_id() {
    assert_eq!(
        match_response_line(&String::from("S[7]:[]\n"), 7),
        Some(String::from("[]"))
    );
    // a different id is discarded
    assert_eq!(match_response_line(&String::from("S[8]:[]\n"), 7), None);
    // malformed headers are discarded
    assert_eq!(match_response_line(&String::from("garbage\n"), 7), None);
    assert_eq!(match_response_line(&String::from("S[7]:\n"), 7), None);
}

#[test]
fn matched_response_becomes_completion_event() {
    let mut tracker = RequestTracker::new();
    let (id, _line) = tracker.get_files_request();
    let events = tracker
        .poll_responses(&vec![(id, String::from("[]"))])
        .unwrap();
    assert_eq!(events.len(), 1);
    match &events[0] {
        ui::app_event::AppEvent::GetFilesDone(files) => assert_eq!(files.len(), 0),
        other => panic!("expected a listing completion, got {:?}", other),
    }
}

#[test]
fn unmatched_response_resolves_nothing() {
    let mut tracker = RequestTracker::new();
    let (_id, _line) = tracker.get_files_request();
    // id 9 was never issued: the response is ignored
    let events = tracker
        .poll_responses(&vec![(9, String::from("[]"))])
        .unwrap();
    assert_eq!(events.len(), 0);
}

#[test]
fn malformed_payload_is_a_decode_error() {
    let mut tracker = RequestTracker::new();
    let (id, _line) = tracker.get_files_request();
    let result = tracker.poll_responses(&vec![(id, String::from("not json"))]);
    assert_eq!(result, Err(WireError::Malformed));
}

#[test]
fn cause_with_zero_snippets_round_trips() {
    // A cause with no snippets decodes back to an empty snippet list,
    // not an error.
    let cause = DependencyCause {
        source: String::from("lib/a.ex"),
        sink: String::from("lib/b.ex"),
        snippets: vec![],
        dependency_type: DependencyType::Exports,
    };
    let encoded = encode_dependency_causes(&vec![cause]);
    let decoded = decode_dependency_causes(&encoded).unwrap();
    assert_eq!(decoded.len(), 1);
    assert_eq!(decoded[0].source, "lib/a.ex");
    assert_eq!(decoded[0].sink, "lib/b.ex");
    assert_eq!(decoded[0].dependency_type, DependencyType::Exports);
    assert_eq!(decoded[0].snippets, Vec::<CodeSnippet>::new());
}

#[test]
fn causes_with_snippets_round_trip() {
    let causes = vec![
        DependencyCause {
            source: String::from("a \"quoted\" name"),
            sink: String::from("back\\slash"),
            snippets: vec![
                CodeSnippet {
                    content: String::from("defmodule A do\n  use B\nend"),
                    highlight: (2, 2),
                    lines_span: (1, 3),
                },
                CodeSnippet {
                    content: String::from(""),
                    highlight: (0, 0),
                    lines_span: (0, 0),
                },
            ],
            dependency_type: DependencyType::Compile,
        },
        DependencyCause {
            source: String::from("x"),
            sink: String::from("y"),
            snippets: vec![],
            dependency_type: DependencyType::Runtime,
        },
    ];
    let encoded = encode_dependency_causes(&causes);
    let decoded = decode_dependency_causes(&encoded).unwrap();
    assert_eq!(decoded, causes);
}

#[test]
fn cause_object_encodes_exactly() {
    let cause = DependencyCause {
        source: String::from("a"),
        sink: String::from("b"),
        snippets: vec![CodeSnippet {
            content: String::from("x"),
            highlight: (10, 12),
            lines_span: (9, 14),
        }],
        dependency_type: DependencyType::Compile,
    };
    assert_eq!(
        encode_dependency_cause(&cause),
        "{\"source\":\"a\",\"sink\":\"b\",\"type\":\"compile\",\"snippets\":[{\"content\":\"x\",\"highlight\":[10,12],\"lines_span\":[9,14]}]}"
    );
}

#[test]
fn file_listing_decodes() {
    let payload = String::from(
        "[{\"path\":\"lib/a.ex\",\"recompile_dependencies\":[{\"id\":\"b\",\"path\":\"lib/b.ex\",\"reason\":\"compile\",\"dependency_chain\":[{\"source\":\"lib/a.ex\",\"sink\":\"lib/b.ex\",\"type\":\"exports\"}]}]}]",
    );
    let entries = decode_file_entries(&payload).unwrap();
    assert_eq!(entries.len(), 1);
    assert_eq!(entries[0].path, "lib/a.ex");
    assert_eq!(entries[0].recompile_dependencies.len(), 1);
    let dep = &entries[0].recompile_dependencies[0];
    assert_eq!(dep.id, "b");
    assert_eq!(dep.path, "lib/b.ex");
    assert_eq!(dep.reason, RecomplileDependencyReason::Compile);
    assert_eq!(dep.dependency_chain.len(), 1);
    assert_eq!(dep.dependency_chain[0].source, "lib/a.ex");
    assert_eq!(dep.dependency_chain[0].sink, "lib/b.ex");
    assert_eq!(dep.dependency_chain[0].dependency_type, DependencyType::Exports);
}

#[test]
fn empty_file_listing_decodes() {
    let entries = decode_file_entries(&String::from("[]")).unwrap();
    assert_eq!(entries.len(), 0);
}

#[test]
fn trailing_garbage_is_a_decode_error() {
    assert_eq!(
        decode_file_entries(&String::from("[]x")),
        Err(WireError::Malformed)
    );
}

#[test]
fn noop_adapter_ignores_requests() {
    let mut adapter = NoopAdapter::new();
    adapter.init_server();
    adapter.get_files();
    adapter.get_dependency_causes(
        &String::from("a"),
        &String::from("b"),
        &RecomplileDependencyReason::Compile,
    );
}
