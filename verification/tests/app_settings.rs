use eventflux_rust::engine::app_settings::app_settings;
use eventflux_rust::engine::config::eventflux_app_context::MetricsLevelPlaceholder;
use eventflux_rust::query_api::definition::annotation::Annotation;

fn annotation(name: &str, elements: &[(&str, &str)]) -> Annotation {
    let mut a = Annotation::new(name.to_string());
    for (k, v) in elements {
        a.elements.push((k.to_string(), v.to_string()));
    }
    a
}

#[test]
fn app_settings_defaults_without_app_annotation() {
    let anns = vec![annotation("info", &[("name", "Other")])];
    let s = app_settings("Orders", &anns);
    assert_eq!(s.name, "Orders");
    assert!(!s.playback);
    assert!(!s.enforce_order);
    assert_eq!(s.root_metrics, MetricsLevelPlaceholder::OFF);
    assert_eq!(s.buffer_size, 0);
    assert!(!s.transport_channel_creation);
}

#[test]
fn app_settings_reads_every_key() {
    let anns = vec![annotation(
        "App",
        &[
            ("NAME", "Renamed"),
            ("playback", "TRUE"),
            ("enforceOrder", "true"),
            ("stats", "Detailed"),
            ("BufferSize", "1024"),
            ("transport.channel.creation", "True"),
        ],
    )];
    let s = app_settings("Orders", &anns);
    assert_eq!(s.name, "Renamed");
    assert!(s.playback);
    assert!(s.enforce_order);
    assert_eq!(s.root_metrics, MetricsLevelPlaceholder::DETAIL);
    assert_eq!(s.buffer_size, 1024);
    assert!(s.transport_channel_creation);
}

#[test]
fn app_settings_uses_first_app_annotation_and_last_value() {
    let anns = vec![
        annotation("app", &[("statistics", "basic"), ("buffer_size", "x"), ("statistics", "true")]),
        annotation("app", &[("name", "Second")]),
    ];
    let s = app_settings("Orders", &anns);
    assert_eq!(s.name, "Orders");
    assert_eq!(s.root_metrics, MetricsLevelPlaceholder::BASIC);
    assert_eq!(s.buffer_size, 0);
    let anns = vec![annotation("app", &[("buffer_size", "99999999999"), ("statistics", "none")])];
    let s = app_settings("Orders", &anns);
    assert_eq!(s.buffer_size, 0);
    assert_eq!(s.root_metrics, MetricsLevelPlaceholder::OFF);
}
