use dwm_status::config::FeatureName;
use dwm_status::status::{
    build_output, render_status_line, worker_exit, worker_returned_error, RootNameState,
    StatusSlots, WorkerEnd,
};

#[test]
fn render_features_in_reverse_config_order() {
    let features = vec![FeatureName::Clock, FeatureName::Cpu];
    let mut slots = StatusSlots::default();
    slots.clock = "clock".to_string();
    slots.cpu = "cpu".to_string();

    assert_eq!(build_output(&features, &slots), "▏cpu▕▏clock▕");
}

#[test]
fn skip_empty_blocks() {
    let outputs = vec!["a".to_string(), String::new(), "c".to_string()];
    assert_eq!(render_status_line(&outputs), "▏c▕▏a▕");
    assert_eq!(render_status_line(&Vec::new()), "▏▕");
}

#[test]
fn reject_unexpected_worker_return() {
    assert_eq!(worker_returned_error(FeatureName::Cpu), "Feature cpu worker returned unexpectedly");
}

#[test]
fn reject_worker_panic() {
    let err = worker_exit(FeatureName::Gpu, WorkerEnd::Crashed("task 7 panicked".to_string()))
        .unwrap_err();

    assert!(err.contains("Feature gpu worker task failed"));
    assert!(err.contains("panicked"));
}

#[test]
fn worker_error_passes_through() {
    let err = worker_exit(FeatureName::Ram, WorkerEnd::Failed("boom".to_string())).unwrap_err();
    assert_eq!(err, "boom");
    let done = worker_exit(FeatureName::Clock, WorkerEnd::Completed).unwrap_err();
    assert_eq!(done, "Feature clock worker completed unexpectedly");
}

#[test]
fn write_root_name_only_when_changed() {
    let mut state = RootNameState::new();
    assert_eq!(state.on_redraw("▏a▕".to_string()), Some("▏a▕".to_string()));
    assert_eq!(state.on_redraw("▏a▕".to_string()), None);
    assert_eq!(state.on_redraw("▏b▕".to_string()), Some("▏b▕".to_string()));
    assert_eq!(state.on_redraw("▏a▕".to_string()), Some("▏a▕".to_string()));
}
