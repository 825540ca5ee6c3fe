use otap_pipeline::config::{Config, SinkKind};
use otap_pipeline::normalize::Transform;
use otap_pipeline::payload::PayloadType;
use otap_pipeline::pipeline::PartialPolicy;
use otap_pipeline::route::RoutePolicy;

#[test]
fn a_new_config_takes_every_kind_and_feeds_no_sink() {
    let config = Config::new();
    assert!(config.selects(PayloadType::Logs));
    assert!(config.selects(PayloadType::Unknown));
    assert_eq!(config.sinks(), Vec::<SinkKind>::new());
    assert_eq!(config.route_policy, RoutePolicy::ReportAndContinue);
    assert_eq!(config.partial_policy, PartialPolicy::Keep);
}

#[test]
fn targets_select_the_kinds_to_process() {
    let mut config = Config::new();
    config.targets = Some(vec![PayloadType::Logs, PayloadType::LogAttrs]);
    assert!(config.selects(PayloadType::Logs));
    assert!(config.selects(PayloadType::LogAttrs));
    assert!(!config.selects(PayloadType::Spans));
    config.targets = Some(vec![]);
    assert!(!config.selects(PayloadType::Logs));
}

#[test]
fn sinks_are_asked_in_a_fixed_order() {
    let mut config = Config::new();
    config.catalog_prefix = Some("otap.".to_string());
    assert_eq!(config.sinks(), vec![SinkKind::Catalog]);
    config.query_surface = true;
    assert_eq!(config.sinks(), vec![SinkKind::QuerySurface, SinkKind::Catalog]);
    config.file_root = Some("/tmp".to_string());
    assert_eq!(
        config.sinks(),
        vec![SinkKind::QuerySurface, SinkKind::FileExport, SinkKind::Catalog]
    );
    config.query_surface = false;
    config.catalog_prefix = None;
    assert_eq!(config.sinks(), vec![SinkKind::FileExport]);
}

#[test]
fn a_new_config_has_the_default_rules() {
    let mut config = Config::new();
    assert!(matches!(&config.rules.get(PayloadType::Logs)[..], [Transform::DeltaDecode(name)] if name == "id"));
    assert!(matches!(&config.rules.get(PayloadType::ScopeAttrs)[..], [Transform::SortByParentId]));
    assert!(config.rules.get(PayloadType::Unknown).is_empty());
    config.rules.set(PayloadType::Logs, vec![]);
    assert!(config.rules.get(PayloadType::Logs).is_empty());
}
