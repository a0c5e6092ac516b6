use dwm_status::feature_state::FeatureState;

/// Emit one contextual event on the first failed sample.
#[test]
fn report_first_failure() {
    let mut state = FeatureState::default();
    let update = state.update(
        "gpu",
        Err("Failed to run nvidia-smi: No such file or directory".to_string()),
    );

    assert_eq!(update.output, "");
    assert_eq!(
        update.event,
        Some(
            "Feature gpu failed: Failed to run nvidia-smi: No such file or directory"
                .to_string(),
        ),
    );
}

/// Suppress repeated reports while a feature stays unavailable.
#[test]
fn suppress_repeated_failure() {
    let mut state = FeatureState::default();

    state.update("cpu", Err("first read failed".to_string()));
    let update = state.update("cpu", Err("second read failed".to_string()));

    assert_eq!(update.output, "");
    assert_eq!(update.event, None);
}

/// Republish output and report the first successful recovery.
#[test]
fn report_recovery() {
    let mut state = FeatureState::default();

    state.update("gpu", Err("nvidia-smi failed".to_string()));
    let update = state.update("gpu", Ok("gpu 42%".to_string()));

    assert_eq!(update.output, "gpu 42%");
    assert_eq!(update.event, Some("Feature gpu recovered".to_string()));
}

/// Apply the same transition policy to every fallible sampler.
#[test]
fn identify_each_sampler_failure() {
    for feature in ["cpu", "ram", "gpu", "traffic"] {
        let mut state = FeatureState::default();
        let update = state.update(feature, Err("injected read failure".to_string()));

        assert_eq!(
            update.event,
            Some(format!("Feature {feature} failed: injected read failure")),
        );
    }
}

/// A healthy feature publishes its samples without any event.
#[test]
fn healthy_samples_stay_quiet() {
    let mut state = FeatureState::new();
    let first = state.update("ram", Ok("a".to_string()));
    let second = state.update("ram", Ok("b".to_string()));

    assert_eq!(first.output, "a");
    assert_eq!(first.event, None);
    assert_eq!(second.output, "b");
    assert_eq!(second.event, None);
}

/// Events mark exactly the transitions over a longer run.
#[test]
fn events_mark_each_transition() {
    let mut state = FeatureState::default();
    let samples: Vec<Result<String, String>> = vec![
        Ok("x".to_string()),
        Err("e1".to_string()),
        Err("e2".to_string()),
        Ok("y".to_string()),
        Ok("z".to_string()),
        Err("e3".to_string()),
    ];
    let mut events = vec![];

    for sample in samples {
        if let Some(event) = state.update("cpu", sample).event {
            events.push(event);
        }
    }

    assert_eq!(
        events,
        vec![
            "Feature cpu failed: e1".to_string(),
            "Feature cpu recovered".to_string(),
            "Feature cpu failed: e3".to_string(),
        ],
    );
}
