use otap_pipeline::payload::PayloadType;
use otap_pipeline::route::{
    failed_sinks, next_sink, routes_on, Existence, FileExport, QuerySurface, RouteError,
    RoutePolicy,
};
use otap_pipeline::table::{Cell, DataType, Field, Schema, Table};

fn table(name: &str, ids: &[i128]) -> Table {
    let schema = Schema::new(vec![Field::new(name, DataType::UInt16, false)]);
    Table::try_new(schema, vec![ids.iter().map(|v| Cell::Int(*v)).collect()]).unwrap()
}

#[test]
fn a_new_query_surface_is_empty() {
    let surface = QuerySurface::new();
    assert_eq!(surface.len(), 0);
    assert!(surface.get("logs").is_none());
}

#[test]
fn registering_a_name_twice_keeps_the_latest_table() {
    let mut surface = QuerySurface::new();
    assert!(!surface.register("logs", table("id", &[1])));
    assert_eq!(surface.len(), 1);
    assert!(surface.register("logs", table("id", &[1, 2, 3])));
    assert_eq!(surface.len(), 1);
    assert_eq!(surface.get("logs").unwrap().num_rows(), 3);
}

#[test]
fn registering_leaves_the_other_names_alone() {
    let mut surface = QuerySurface::new();
    assert!(!surface.register("logs", table("id", &[1])));
    assert!(!surface.register("logattrs", table("parent_id", &[1, 1])));
    assert!(!surface.register("Logs", table("id", &[])));
    assert_eq!(surface.len(), 3);
    assert!(surface.register("logattrs", table("parent_id", &[1, 1, 2, 2])));
    assert_eq!(surface.len(), 3);
    assert_eq!(surface.get("logs").unwrap().num_rows(), 1);
    assert_eq!(surface.get("logattrs").unwrap().num_rows(), 4);
    assert_eq!(surface.get("Logs").unwrap().num_rows(), 0);
    assert!(surface.get("spans").is_none());
}

#[test]
fn the_first_table_of_a_kind_opens_its_writer() {
    let mut export = FileExport::new("/data/export");
    let plan = export.route(PayloadType::Logs, &table("id", &[1])).unwrap();
    assert_eq!(plan.path, "/data/export/logs/data.parquet");
    assert!(plan.open);
    let plan = export.route(PayloadType::Logs, &table("id", &[2, 3])).unwrap();
    assert_eq!(plan.path, "/data/export/logs/data.parquet");
    assert!(!plan.open);
    let plan = export.route(PayloadType::LogAttrs, &table("parent_id", &[1])).unwrap();
    assert_eq!(plan.path, "/data/export/logattrs/data.parquet");
    assert!(plan.open);
    let plan = export.route(PayloadType::Logs, &table("id", &[])).unwrap();
    assert!(!plan.open);
}

#[test]
fn a_table_of_another_schema_is_a_mismatch() {
    let mut export = FileExport::new("root");
    assert!(export.route(PayloadType::Logs, &table("id", &[1])).is_ok());
    assert_eq!(
        export.route(PayloadType::Logs, &table("other", &[1])).err(),
        Some(RouteError::SchemaMismatch)
    );
    // The writer is still there for tables that fit.
    let plan = export.route(PayloadType::Logs, &table("id", &[4])).unwrap();
    assert!(!plan.open);
}

#[test]
fn finalize_closes_every_writer_once() {
    let mut export = FileExport::new("root");
    assert_eq!(export.path_of(PayloadType::SpanEvents), "root/spanevents/data.parquet");
    export.route(PayloadType::Spans, &table("id", &[1])).unwrap();
    export.route(PayloadType::Logs, &table("id", &[1])).unwrap();
    export.route(PayloadType::Spans, &table("id", &[2])).unwrap();
    assert_eq!(
        export.finalize(),
        vec!["root/spans/data.parquet".to_string(), "root/logs/data.parquet".to_string()]
    );
    assert_eq!(export.finalize(), Vec::<String>::new());
    assert_eq!(
        export.route(PayloadType::Logs, &table("id", &[1])).err(),
        Some(RouteError::SinkUnavailable)
    );
    assert_eq!(
        export.route(PayloadType::LogAttrs, &table("parent_id", &[1])).err(),
        Some(RouteError::SinkUnavailable)
    );
}

#[test]
fn finalize_of_an_unused_export_closes_nothing() {
    let mut export = FileExport::new("root");
    assert_eq!(export.finalize(), Vec::<String>::new());
}

#[test]
fn report_and_continue_asks_every_sink() {
    let policy = RoutePolicy::ReportAndContinue;
    assert_eq!(next_sink(policy, 3, &vec![]), Some(0));
    assert_eq!(next_sink(policy, 3, &vec![Err(RouteError::SinkUnavailable)]), Some(1));
    assert_eq!(
        next_sink(policy, 3, &vec![Err(RouteError::SinkUnavailable), Err(RouteError::CommitConflict)]),
        Some(2)
    );
    assert_eq!(next_sink(policy, 3, &vec![Ok(()), Ok(()), Err(RouteError::SchemaMismatch)]), None);
    assert_eq!(next_sink(policy, 0, &vec![]), None);
}

#[test]
fn abort_on_first_error_asks_no_sink_after_a_failure() {
    let policy = RoutePolicy::AbortOnFirstError;
    assert_eq!(next_sink(policy, 3, &vec![]), Some(0));
    assert_eq!(next_sink(policy, 3, &vec![Ok(())]), Some(1));
    assert_eq!(next_sink(policy, 3, &vec![Ok(()), Ok(())]), Some(2));
    assert_eq!(next_sink(policy, 3, &vec![Ok(()), Err(RouteError::SinkUnavailable)]), None);
    assert_eq!(next_sink(policy, 3, &vec![Err(RouteError::SinkUnavailable)]), None);
    assert_eq!(next_sink(policy, 3, &vec![Ok(()), Ok(()), Ok(())]), None);
}

#[test]
fn failed_sinks_are_counted() {
    assert_eq!(failed_sinks(&vec![]), 0);
    assert_eq!(failed_sinks(&vec![Ok(()), Ok(())]), 0);
    assert_eq!(
        failed_sinks(&vec![
            Err(RouteError::SinkUnavailable),
            Ok(()),
            Err(RouteError::CommitConflict),
            Err(RouteError::SchemaMismatch)
        ]),
        3
    );
}

#[test]
fn a_kind_has_a_target_once_it_has_a_writer() {
    let mut export = FileExport::new("root");
    assert!(export.target(PayloadType::Logs).is_none());
    export.route(PayloadType::Logs, &table("id", &[1])).unwrap();
    export.route(PayloadType::Logs, &table("id", &[2])).unwrap();
    let target = export.target(PayloadType::Logs).unwrap();
    assert_eq!(target.table_name, "root/logs/data.parquet");
    assert_eq!(target.existence, Existence::Created);
    assert_eq!(target.schema.len(), 1);
    assert_eq!(target.schema.fields[0].name, "id");
    assert!(export.target(PayloadType::Spans).is_none());
}

#[test]
fn a_run_goes_on_unless_it_aborts_on_the_first_error() {
    assert!(routes_on(RoutePolicy::ReportAndContinue, 0));
    assert!(routes_on(RoutePolicy::ReportAndContinue, 5));
    assert!(routes_on(RoutePolicy::AbortOnFirstError, 0));
    assert!(!routes_on(RoutePolicy::AbortOnFirstError, 1));
    assert!(!routes_on(RoutePolicy::AbortOnFirstError, usize::MAX));
}
