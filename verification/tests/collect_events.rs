use build_critical_path::collect::{
    BuildEvent, BuildProviderType, BuildTargetResult, CollectError, ConfiguredBuildEvent,
    ConfiguredBuildEventVariant, LabelKey, MaybeCompatible, ProviderArtifacts,
};
use build_critical_path::error::{Category, ClassifiedError};

fn conf(label: u64, variant: ConfiguredBuildEventVariant) -> BuildEvent {
    BuildEvent::Configured(ConfiguredBuildEvent { label: LabelKey(label), variant })
}

fn prepared(label: u64, name: &str) -> BuildEvent {
    conf(
        label,
        ConfiguredBuildEventVariant::Prepared {
            run_args: None,
            target_rule_type_name: name.to_string(),
        },
    )
}

fn output(label: u64, index: usize, values: u64) -> BuildEvent {
    conf(
        label,
        ConfiguredBuildEventVariant::Output {
            output: Ok(ProviderArtifacts { values, provider_type: BuildProviderType::Default }),
            index,
        },
    )
}

fn an_error() -> ClassifiedError {
    ClassifiedError {
        category: Some(Category::Infra),
        typ: None,
        tags: vec![],
        source_location: None,
        message: "boom".to_string(),
    }
}

#[test]
fn outputs_sort_by_index_and_labels_ascend() {
    let mut events = vec![
        prepared(7, "cxx_library"),
        prepared(3, "rust_library"),
        output(7, 1, 71),
        output(7, 0, 70),
        output(3, 0, 30),
    ];
    let r: BuildTargetResult = BuildTargetResult::collect_events(&mut events, false).unwrap();
    assert_eq!(r.configured.len(), 2);
    assert_eq!(r.configured[0].0, LabelKey(3));
    assert_eq!(r.configured[1].0, LabelKey(7));
    let t7 = r.configured[1].1.as_ref().unwrap();
    assert_eq!(t7.target_rule_type_name.as_deref(), Some("cxx_library"));
    let values: Vec<u64> = t7
        .outputs
        .iter()
        .map(|o| o.as_ref().unwrap().values)
        .collect();
    assert_eq!(values, vec![70, 71]);
}

#[test]
fn first_report_of_an_index_wins() {
    let mut events = vec![prepared(1, "t"), output(1, 0, 10), output(1, 0, 99)];
    let r = BuildTargetResult::collect_events(&mut events, false).unwrap();
    let t = r.configured[0].1.as_ref().unwrap();
    assert_eq!(t.outputs.len(), 1);
    assert_eq!(t.outputs[0].as_ref().unwrap().values, 10);
}

#[test]
fn skipped_targets_keep_an_empty_record() {
    let mut events = vec![conf(4, ConfiguredBuildEventVariant::SkippedIncompatible)];
    let r = BuildTargetResult::collect_events(&mut events, false).unwrap();
    assert_eq!(r.configured.len(), 1);
    assert!(r.configured[0].1.is_none());
}

#[test]
fn output_before_prepared_is_an_error() {
    let mut events = vec![output(1, 0, 10)];
    assert!(matches!(
        BuildTargetResult::collect_events(&mut events, false),
        Err(CollectError::OutputBeforePrepared(LabelKey(1)))
    ));
}

#[test]
fn graph_size_lands_on_the_target() {
    let mut events = vec![
        prepared(1, "t"),
        conf(
            1,
            ConfiguredBuildEventVariant::GraphSize {
                configured_graph_size: Ok(MaybeCompatible::Compatible(17)),
            },
        ),
    ];
    let r = BuildTargetResult::collect_events(&mut events, false).unwrap();
    let t = r.configured[0].1.as_ref().unwrap();
    assert!(matches!(
        t.configured_graph_size,
        Some(Ok(MaybeCompatible::Compatible(17)))
    ));
}

#[test]
fn fail_fast_stops_right_after_a_target_error() {
    let mut events = vec![
        prepared(1, "t"),
        conf(1, ConfiguredBuildEventVariant::Error { err: an_error() }),
        prepared(2, "u"),
    ];
    let r = BuildTargetResult::collect_events(&mut events, true).unwrap();
    // The event after the error was never folded in.
    assert_eq!(r.configured.len(), 1);
    assert_eq!(r.configured[0].1.as_ref().unwrap().errors.len(), 1);
}

#[test]
fn unattributed_errors_group_by_label() {
    let mut events = vec![
        BuildEvent::OtherError { label: Some(LabelKey(5)), err: an_error() },
        BuildEvent::OtherError { label: None, err: an_error() },
        BuildEvent::OtherError { label: Some(LabelKey(5)), err: an_error() },
    ];
    let r = BuildTargetResult::collect_events(&mut events, false).unwrap();
    assert_eq!(r.other_errors.len(), 2);
    assert_eq!(r.other_errors[0].0, None);
    assert_eq!(r.other_errors[0].1.len(), 1);
    assert_eq!(r.other_errors[1].0, Some(LabelKey(5)));
    assert_eq!(r.other_errors[1].1.len(), 2);
}
