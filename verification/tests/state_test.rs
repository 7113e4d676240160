use tforge::state::PipelineState;
use tforge::state::StepState;

#[test]
fn test_save_and_load_state() {
    let mut state = PipelineState::new();
    state.mark_completed("flutter-app", 0);
    state.mark_completed("flutter-app", 1);
    state.mark_failed("gcp-project", 0, "quota exceeded");
    let text = state.serialize();

    let loaded = PipelineState::deserialize(text.as_str()).unwrap();
    assert_eq!(loaded.get("flutter-app", 0), StepState::Completed);
    assert_eq!(loaded.get("flutter-app", 1), StepState::Completed);
    assert!(matches!(loaded.get("gcp-project", 0), StepState::Failed(_)));
    assert_eq!(loaded.get("gcp-project", 1), StepState::Pending);
}

#[test]
fn test_load_nonexistent_returns_empty() {
    let state = PipelineState::deserialize("").unwrap();
    assert_eq!(state.get("anything", 0), StepState::Pending);
}

#[test]
fn test_failure_message_round_trips() {
    let mut state = PipelineState::new();
    state.mark_failed("svc", 3, "exit 1\nsome stderr with 'quotes' and spaces");
    let text = state.serialize();
    let loaded = PipelineState::deserialize(text.as_str()).unwrap();
    match loaded.get("svc", 3) {
        StepState::Failed(msg) => {
            assert_eq!(msg, "exit 1\nsome stderr with 'quotes' and spaces");
        }
        other => panic!("expected a failure record, got {other:?}"),
    }
}

#[test]
fn test_awkward_template_names_round_trip() {
    let mut state = PipelineState::new();
    state.mark_completed("name with spaces and 7 digits", 0);
    state.mark_completed("newline\nin name", 12);
    let text = state.serialize();
    let loaded = PipelineState::deserialize(text.as_str()).unwrap();
    assert_eq!(loaded.get("name with spaces and 7 digits", 0), StepState::Completed);
    assert_eq!(loaded.get("newline\nin name", 12), StepState::Completed);
    assert_eq!(loaded.get("newline\nin name", 11), StepState::Pending);
}

#[test]
fn test_malformed_state_is_an_error() {
    assert!(PipelineState::deserialize("not a state record").is_err());
    assert!(PipelineState::deserialize("3 ab").is_err());
}

#[test]
fn test_marking_overwrites() {
    let mut state = PipelineState::new();
    state.mark_failed("t", 0, "first try failed");
    state.mark_completed("t", 0);
    assert_eq!(state.get("t", 0), StepState::Completed);
}

#[test]
fn test_serialized_record_shape() {
    let mut state = PipelineState::new();
    state.mark_completed("ab", 3);
    assert_eq!(state.serialize(), "2 ab 3 C\n");

    let mut failing = PipelineState::new();
    failing.mark_failed("x", 0, "hi");
    assert_eq!(failing.serialize(), "1 x 0 F 2 hi\n");

    assert_eq!(PipelineState::new().serialize(), "");
}
