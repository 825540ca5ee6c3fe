use otap_pipeline::catalog::{
    table_name_in_catalog, CatalogReply, CatalogRequest, CatalogRoute, CatalogStep, Phase,
};
use otap_pipeline::payload::PayloadType;
use otap_pipeline::route::{Existence, RouteError};
use otap_pipeline::table::{DataType, Field, Schema};

fn schema(name: &str) -> Schema {
    Schema::new(vec![Field::new(name, DataType::UInt16, false)])
}

/// A catalog that lives in the test: the tables it holds, what was asked of
/// it, and the commits that it is told to refuse.
struct Catalog {
    tables: Vec<(String, Schema)>,
    asked: Vec<CatalogRequest>,
    conflicts: usize,
    commits: usize,
}

impl Catalog {
    fn new() -> Catalog {
        Catalog { tables: Vec::new(), asked: Vec::new(), conflicts: 0, commits: 0 }
    }

    fn count(&self, request: CatalogRequest) -> usize {
        self.asked.iter().filter(|r| **r == request).count()
    }

    fn answer(&mut self, name: &str, schema: &Schema, request: CatalogRequest) -> CatalogReply {
        self.asked.push(request);
        match request {
            CatalogRequest::TableExists => {
                CatalogReply::Exists(self.tables.iter().any(|t| t.0 == name))
            }
            CatalogRequest::CreateTable => {
                self.tables.push((name.to_string(), schema.clone()));
                CatalogReply::Done
            }
            CatalogRequest::LoadTable => match self.tables.iter().find(|t| t.0 == name) {
                Some(t) => CatalogReply::Loaded(t.1.clone()),
                None => CatalogReply::Failed(RouteError::SinkUnavailable),
            },
            CatalogRequest::Commit => {
                if self.conflicts > 0 {
                    self.conflicts -= 1;
                    CatalogReply::Failed(RouteError::CommitConflict)
                } else {
                    self.commits += 1;
                    CatalogReply::Done
                }
            }
            _ => CatalogReply::Done,
        }
    }

    fn deliver(&mut self, kind: PayloadType, schema: Schema) -> Result<(), RouteError> {
        let name = table_name_in_catalog("otap.", kind);
        let (mut route, mut request) = CatalogRoute::start(schema.clone());
        for _ in 0..100 {
            let reply = self.answer(&name, &schema, request);
            match route.advance(reply) {
                CatalogStep::Request(next) => request = next,
                CatalogStep::Finished(outcome) => return outcome,
            }
        }
        panic!("the delivery does not end");
    }
}

#[test]
fn the_table_name_has_the_prefix() {
    assert_eq!(table_name_in_catalog("otap.", PayloadType::LogAttrs), "otap.logattrs");
    assert_eq!(table_name_in_catalog("", PayloadType::Logs), "logs");
}

#[test]
fn the_first_table_creates_the_target_and_commits() {
    let mut catalog = Catalog::new();
    assert_eq!(catalog.deliver(PayloadType::Logs, schema("id")), Ok(()));
    assert_eq!(
        catalog.asked,
        vec![
            CatalogRequest::TableExists,
            CatalogRequest::CreateTable,
            CatalogRequest::LoadTable,
            CatalogRequest::OpenWriter,
            CatalogRequest::Append,
            CatalogRequest::CloseWriter,
            CatalogRequest::Commit,
        ]
    );
    assert_eq!(catalog.commits, 1);
}

#[test]
fn the_second_table_of_a_kind_creates_nothing_and_commits_once_more() {
    let mut catalog = Catalog::new();
    assert_eq!(catalog.deliver(PayloadType::Logs, schema("id")), Ok(()));
    assert_eq!(catalog.count(CatalogRequest::CreateTable), 1);
    assert_eq!(catalog.count(CatalogRequest::Commit), 1);
    assert_eq!(catalog.deliver(PayloadType::Logs, schema("id")), Ok(()));
    assert_eq!(catalog.count(CatalogRequest::CreateTable), 1);
    assert_eq!(catalog.count(CatalogRequest::Commit), 2);
    assert_eq!(catalog.commits, 2);
    assert_eq!(catalog.tables.len(), 1);
    // Another kind has a target of its own.
    assert_eq!(catalog.deliver(PayloadType::LogAttrs, schema("parent_id")), Ok(()));
    assert_eq!(catalog.count(CatalogRequest::CreateTable), 2);
    assert_eq!(catalog.tables.len(), 2);
}

#[test]
fn a_refused_commit_is_tried_again_after_a_reload() {
    let mut catalog = Catalog::new();
    catalog.conflicts = 1;
    assert_eq!(catalog.deliver(PayloadType::Logs, schema("id")), Ok(()));
    assert_eq!(
        catalog.asked,
        vec![
            CatalogRequest::TableExists,
            CatalogRequest::CreateTable,
            CatalogRequest::LoadTable,
            CatalogRequest::OpenWriter,
            CatalogRequest::Append,
            CatalogRequest::CloseWriter,
            CatalogRequest::Commit,
            CatalogRequest::LoadTable,
            CatalogRequest::Commit,
        ]
    );
    assert_eq!(catalog.commits, 1);
}

#[test]
fn a_commit_refused_twice_is_a_conflict() {
    let mut catalog = Catalog::new();
    catalog.conflicts = 2;
    assert_eq!(catalog.deliver(PayloadType::Logs, schema("id")), Err(RouteError::CommitConflict));
    assert_eq!(catalog.count(CatalogRequest::Commit), 2);
    assert_eq!(catalog.count(CatalogRequest::LoadTable), 2);
    assert_eq!(catalog.count(CatalogRequest::Append), 1);
    assert_eq!(catalog.commits, 0);
}

#[test]
fn a_target_of_another_schema_is_a_mismatch() {
    let mut catalog = Catalog::new();
    assert_eq!(catalog.deliver(PayloadType::Logs, schema("id")), Ok(()));
    assert_eq!(catalog.deliver(PayloadType::Logs, schema("other")), Err(RouteError::SchemaMismatch));
    assert_eq!(catalog.count(CatalogRequest::CreateTable), 1);
    assert_eq!(catalog.count(CatalogRequest::OpenWriter), 1);
    assert_eq!(catalog.commits, 1);
}

#[test]
fn a_failure_ends_the_delivery() {
    let (mut route, request) = CatalogRoute::start(schema("id"));
    assert_eq!(request, CatalogRequest::TableExists);
    assert_eq!(route.phase(), Phase::CheckingExistence);
    assert_eq!(
        route.advance(CatalogReply::Failed(RouteError::SinkUnavailable)),
        CatalogStep::Finished(Err(RouteError::SinkUnavailable))
    );
    assert_eq!(route.phase(), Phase::Failed(RouteError::SinkUnavailable));
    // The outcome is repeated.
    assert_eq!(
        route.advance(CatalogReply::Exists(true)),
        CatalogStep::Finished(Err(RouteError::SinkUnavailable))
    );
    assert_eq!(route.advance(CatalogReply::Done), CatalogStep::Finished(Err(RouteError::SinkUnavailable)));
}

#[test]
fn an_answer_that_does_not_fit_ends_the_delivery() {
    let (mut route, _) = CatalogRoute::start(schema("id"));
    assert_eq!(
        route.advance(CatalogReply::Done),
        CatalogStep::Finished(Err(RouteError::SinkUnavailable))
    );
    let (mut route, _) = CatalogRoute::start(schema("id"));
    assert_eq!(
        route.advance(CatalogReply::Exists(true)),
        CatalogStep::Request(CatalogRequest::LoadTable)
    );
    assert_eq!(
        route.advance(CatalogReply::Exists(true)),
        CatalogStep::Finished(Err(RouteError::SinkUnavailable))
    );
    let (mut route, _) = CatalogRoute::start(schema("id"));
    assert_eq!(
        route.advance(CatalogReply::Loaded(schema("id"))),
        CatalogStep::Finished(Err(RouteError::SinkUnavailable))
    );
    // A conflict before the commit is no reason to load again.
    let (mut route, _) = CatalogRoute::start(schema("id"));
    assert_eq!(
        route.advance(CatalogReply::Failed(RouteError::CommitConflict)),
        CatalogStep::Finished(Err(RouteError::CommitConflict))
    );
}

#[test]
fn the_delivery_knows_whether_it_created_the_target() {
    let (mut route, _) = CatalogRoute::start(schema("id"));
    assert!(!route.created());
    route.advance(CatalogReply::Exists(false));
    assert_eq!(route.phase(), Phase::Creating);
    assert!(!route.created());
    route.advance(CatalogReply::Done);
    assert!(route.created());
    assert_eq!(route.phase(), Phase::Loading);
    let (mut route, _) = CatalogRoute::start(schema("id"));
    route.advance(CatalogReply::Exists(true));
    route.advance(CatalogReply::Loaded(schema("id")));
    assert_eq!(route.phase(), Phase::OpeningWriter);
    route.advance(CatalogReply::Done);
    route.advance(CatalogReply::Done);
    route.advance(CatalogReply::Done);
    assert_eq!(route.phase(), Phase::Committing);
    assert_eq!(route.advance(CatalogReply::Done), CatalogStep::Finished(Ok(())));
    assert_eq!(route.phase(), Phase::Succeeded);
    assert!(!route.created());
    assert_eq!(route.advance(CatalogReply::Done), CatalogStep::Finished(Ok(())));
}

#[test]
fn the_target_is_created_or_found() {
    let (mut route, _) = CatalogRoute::start(schema("id"));
    assert!(route.target("otap.", PayloadType::Logs).is_none());
    route.advance(CatalogReply::Exists(false));
    route.advance(CatalogReply::Done);
    route.advance(CatalogReply::Loaded(schema("id")));
    route.advance(CatalogReply::Done);
    route.advance(CatalogReply::Done);
    route.advance(CatalogReply::Done);
    assert!(route.target("otap.", PayloadType::Logs).is_none());
    route.advance(CatalogReply::Done);
    let target = route.target("otap.", PayloadType::Logs).unwrap();
    assert_eq!(target.table_name, "otap.logs");
    assert_eq!(target.existence, Existence::Created);
    assert_eq!(target.schema.fields[0].name, "id");

    let (mut route, _) = CatalogRoute::start(schema("id"));
    route.advance(CatalogReply::Exists(true));
    route.advance(CatalogReply::Loaded(schema("id")));
    route.advance(CatalogReply::Done);
    route.advance(CatalogReply::Done);
    route.advance(CatalogReply::Done);
    route.advance(CatalogReply::Done);
    let target = route.target("", PayloadType::SpanLinks).unwrap();
    assert_eq!(target.table_name, "spanlinks");
    assert_eq!(target.existence, Existence::PreExisting);

    let (mut route, _) = CatalogRoute::start(schema("id"));
    route.advance(CatalogReply::Failed(RouteError::SinkUnavailable));
    assert!(route.target("", PayloadType::Logs).is_none());
}
