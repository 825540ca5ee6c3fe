//! The steps by which one table reaches a transactional table catalog.
//!
//! The catalog is the caller's to talk to. The caller asks it what this
//! module requests, reports what it answered, and is told the next request or
//! the outcome.

use crate::payload::PayloadType;
use crate::route::{Existence, RouteError, SinkTarget, SinkTargetSpec};
use crate::table::{FieldSpec, Schema};
use vstd::prelude::*;

verus! {

/// Where the delivery of a table to the catalog stands.
#[derive(Clone, Copy, Debug, PartialEq, Eq, Structural)]
pub enum Phase {
    /// The catalog has been asked whether the target table exists.
    CheckingExistence,
    /// The catalog has been asked to create the target table.
    Creating,
    /// The target table is being loaded for the first time.
    Loading,
    /// A data-file writer for the loaded table is being opened.
    OpeningWriter,
    /// The rows are being appended to the writer.
    Appending,
    /// The writer is being closed, which yields the data files.
    ClosingWriter,
    /// The data files are staged as a fast append on the table as it was
    /// last loaded, and the transaction is being committed.
    Committing,
    /// The target table is being loaded again after a refused commit.
    Reloading,
    /// The table has been committed.
    Succeeded,
    /// The delivery has failed.
    Failed(RouteError),
}

/// What the caller asks of the catalog.
#[derive(Clone, Copy, Debug, PartialEq, Eq, Structural)]
pub enum CatalogRequest {
    /// Whether the target table exists.
    TableExists,
    /// Create the target table with the schema of the table to deliver.
    CreateTable,
    /// Load the target table as it is now.
    LoadTable,
    /// Open a data-file writer for the table that was loaded.
    OpenWriter,
    /// Append the rows to the writer.
    Append,
    /// Close the writer and keep the data files that it returns.
    CloseWriter,
    /// Stage the data files as a fast append on the table that was loaded
    /// last, and commit.
    Commit,
}

/// What the catalog answered.
#[derive(Debug)]
pub enum CatalogReply {
    /// The answer to `TableExists`.
    Exists(bool),
    /// The answer to `LoadTable`: the schema of the target table.
    Loaded(Schema),
    /// The request was carried out.
    Done,
    /// The request failed.
    Failed(RouteError),
}

/// What the catalog answered.
pub enum CatalogReplySpec {
    Exists(bool),
    Loaded(Seq<FieldSpec>),
    Done,
    Failed(RouteError),
}

impl View for CatalogReply {
    type V = CatalogReplySpec;

    open spec fn view(&self) -> CatalogReplySpec {
        match self {
            CatalogReply::Exists(b) => CatalogReplySpec::Exists(*b),
            CatalogReply::Loaded(schema) => CatalogReplySpec::Loaded(schema@),
            CatalogReply::Done => CatalogReplySpec::Done,
            CatalogReply::Failed(e) => CatalogReplySpec::Failed(*e),
        }
    }
}

/// What the caller does next.
#[derive(Clone, Copy, Debug, PartialEq, Eq)]
pub enum CatalogStep {
    /// Ask the catalog and report its answer.
    Request(CatalogRequest),
    /// Stop: the table was committed, or the delivery failed.
    Finished(Result<(), RouteError>),
}

/// The state of one delivery.
pub struct RouteState {
    /// The fields of the table to deliver.
    pub fields: Seq<FieldSpec>,
    /// Where the delivery stands.
    pub phase: Phase,
    /// How often a refused commit may still be tried again.
    pub retries: nat,
    /// Whether the target table was created by this delivery.
    pub created: bool,
}

/// The delivery has ended.
pub open spec fn is_final(phase: Phase) -> bool {
    phase is Succeeded || phase is Failed
}

/// The outcome of a delivery that has ended.
pub open spec fn outcome(phase: Phase) -> Result<(), RouteError> {
    match phase {
        Phase::Failed(e) => Err(e),
        _ => Ok(()),
    }
}

/// The state that ends a delivery with an error, and the step that reports
/// it.
pub open spec fn fail(s: RouteState, e: RouteError) -> (RouteState, CatalogStep) {
    (RouteState { phase: Phase::Failed(e), ..s }, CatalogStep::Finished(Err(e)))
}

/// The state in the given phase, and the request that the phase waits for.
pub open spec fn ask(s: RouteState, phase: Phase, request: CatalogRequest) -> (
    RouteState,
    CatalogStep,
) {
    (RouteState { phase, ..s }, CatalogStep::Request(request))
}

/// The state after an answer of the catalog, and what the caller does next.
///
/// The target table is created only where the catalog said that it does not
/// exist. It is then loaded, and its schema must be that of the table to
/// deliver. A writer is opened, takes the rows and is closed, and the data
/// files are committed as a fast append. A commit that the catalog refuses
/// as conflicting is tried again while retries are left, and only after the
/// table has been loaded anew. Any other failure, and any answer that does
/// not fit the request, ends the delivery. A delivery that has ended stays as
/// it is and repeats its outcome.
pub open spec fn spec_advance(s: RouteState, reply: CatalogReplySpec) -> (RouteState, CatalogStep) {
    if is_final(s.phase) {
        (s, CatalogStep::Finished(outcome(s.phase)))
    } else if s.phase is Committing && reply == CatalogReplySpec::Failed(RouteError::CommitConflict)
        && s.retries > 0 {
        (
            RouteState { phase: Phase::Reloading, retries: (s.retries - 1) as nat, ..s },
            CatalogStep::Request(CatalogRequest::LoadTable),
        )
    } else {
        match reply {
            CatalogReplySpec::Failed(e) => fail(s, e),
            CatalogReplySpec::Exists(found) => if !(s.phase is CheckingExistence) {
                fail(s, RouteError::SinkUnavailable)
            } else if found {
                ask(s, Phase::Loading, CatalogRequest::LoadTable)
            } else {
                ask(s, Phase::Creating, CatalogRequest::CreateTable)
            },
            CatalogReplySpec::Loaded(fields) => if !(s.phase is Loading || s.phase is Reloading) {
                fail(s, RouteError::SinkUnavailable)
            } else if fields != s.fields {
                fail(s, RouteError::SchemaMismatch)
            } else if s.phase is Loading {
                ask(s, Phase::OpeningWriter, CatalogRequest::OpenWriter)
            } else {
                ask(s, Phase::Committing, CatalogRequest::Commit)
            },
            CatalogReplySpec::Done => match s.phase {
                Phase::Creating => ask(
                    RouteState { created: true, ..s },
                    Phase::Loading,
                    CatalogRequest::LoadTable,
                ),
                Phase::OpeningWriter => ask(s, Phase::Appending, CatalogRequest::Append),
                Phase::Appending => ask(s, Phase::ClosingWriter, CatalogRequest::CloseWriter),
                Phase::ClosingWriter => ask(s, Phase::Committing, CatalogRequest::Commit),
                Phase::Committing => (
                    RouteState { phase: Phase::Succeeded, ..s },
                    CatalogStep::Finished(Ok(())),
                ),
                _ => fail(s, RouteError::SinkUnavailable),
            },
        }
    }
}

/// How far a delivery is from its end: every request brings it nearer.
pub open spec fn distance(s: RouteState) -> nat {
    match s.phase {
        Phase::CheckingExistence => 12 + 2 * s.retries,
        Phase::Creating => 11 + 2 * s.retries,
        Phase::Loading => 10 + 2 * s.retries,
        Phase::OpeningWriter => 9 + 2 * s.retries,
        Phase::Appending => 8 + 2 * s.retries,
        Phase::ClosingWriter => 7 + 2 * s.retries,
        Phase::Reloading => 3 + 2 * s.retries,
        Phase::Committing => 2 + 2 * s.retries,
        Phase::Succeeded => 0,
        Phase::Failed(_) => 0,
    }
}

/// The name of the catalog table for a kind of payload: a prefix and the
/// table name of the kind.
pub open spec fn catalog_table_name(prefix: Seq<char>, kind: PayloadType) -> Seq<char> {
    prefix + kind.spec_table_name()
}

/// The name of the catalog table for a kind of payload.
pub fn table_name_in_catalog(prefix: &str, kind: PayloadType) -> (name: String)
    ensures
        name@ == catalog_table_name(prefix@, kind),
{
    let table = kind.table_name();
    String::from_str(prefix).concat(table.as_str())
}

/// The delivery of one table to the catalog.
#[derive(Debug)]
pub struct CatalogRoute {
    schema: Schema,
    phase: Phase,
    retries: u8,
    created: bool,
}

impl View for CatalogRoute {
    type V = RouteState;

    closed spec fn view(&self) -> RouteState {
        RouteState {
            fields: self.schema@,
            phase: self.phase,
            retries: self.retries as nat,
            created: self.created,
        }
    }
}

impl CatalogRoute {
    /// Starts the delivery of a table with the given schema. The first
    /// request is `TableExists`. A refused commit is tried again once.
    pub fn start(schema: Schema) -> (r: (CatalogRoute, CatalogRequest))
        ensures
            r.0@ == (RouteState {
                fields: schema@,
                phase: Phase::CheckingExistence,
                retries: 1,
                created: false,
            }),
            r.1 == CatalogRequest::TableExists,
    {
        (
            CatalogRoute { schema, phase: Phase::CheckingExistence, retries: 1, created: false },
            CatalogRequest::TableExists,
        )
    }

    /// Where the delivery stands.
    pub fn phase(&self) -> (p: Phase)
        ensures
            p == self@.phase,
    {
        self.phase
    }

    /// Whether this delivery created the target table.
    pub fn created(&self) -> (b: bool)
        ensures
            b == self@.created,
    {
        self.created
    }

    /// The target of a delivery that has succeeded: the catalog table of the
    /// kind, with the schema of the delivered table, created by this
    /// delivery or found in the catalog.
    pub fn target(&self, prefix: &str, kind: PayloadType) -> (r: Option<SinkTarget>)
        ensures
            r is Some <==> self@.phase is Succeeded,
            r matches Some(t) ==> t@ == (SinkTargetSpec {
                table_name: catalog_table_name(prefix@, kind),
                schema: self@.fields,
                existence: if self@.created {
                    Existence::Created
                } else {
                    Existence::PreExisting
                },
            }),
    {
        match self.phase {
            Phase::Succeeded => Some(
                SinkTarget {
                    table_name: table_name_in_catalog(prefix, kind),
                    schema: self.schema.clone(),
                    existence: if self.created {
                        Existence::Created
                    } else {
                        Existence::PreExisting
                    },
                },
            ),
            _ => None,
        }
    }

    fn fail(&mut self, e: RouteError) -> (step: CatalogStep)
        ensures
            (final(self)@, step) == fail(old(self)@, e),
    {
        self.phase = Phase::Failed(e);
        CatalogStep::Finished(Err(e))
    }

    fn ask(&mut self, phase: Phase, request: CatalogRequest) -> (step: CatalogStep)
        ensures
            (final(self)@, step) == ask(old(self)@, phase, request),
    {
        self.phase = phase;
        CatalogStep::Request(request)
    }

    /// Takes the answer of the catalog to the last request and says what to
    /// do next.
    pub fn advance(&mut self, reply: CatalogReply) -> (step: CatalogStep)
        ensures
            (final(self)@, step) == spec_advance(old(self)@, reply@),
    {
        match self.phase {
            Phase::Succeeded => {
                return CatalogStep::Finished(Ok(()));
            },
            Phase::Failed(e) => {
                return CatalogStep::Finished(Err(e));
            },
            _ => {},
        }
        match reply {
            CatalogReply::Failed(e) => {
                if self.phase == Phase::Committing && e == RouteError::CommitConflict
                    && self.retries > 0 {
                    self.retries = self.retries - 1;
                    self.phase = Phase::Reloading;
                    CatalogStep::Request(CatalogRequest::LoadTable)
                } else {
                    self.fail(e)
                }
            },
            CatalogReply::Exists(found) => {
                if self.phase != Phase::CheckingExistence {
                    self.fail(RouteError::SinkUnavailable)
                } else if found {
                    self.ask(Phase::Loading, CatalogRequest::LoadTable)
                } else {
                    self.ask(Phase::Creating, CatalogRequest::CreateTable)
                }
            },
            CatalogReply::Loaded(schema) => {
                if self.phase != Phase::Loading && self.phase != Phase::Reloading {
                    self.fail(RouteError::SinkUnavailable)
                } else if !schema.same_as(&self.schema) {
                    self.fail(RouteError::SchemaMismatch)
                } else if self.phase == Phase::Loading {
                    self.ask(Phase::OpeningWriter, CatalogRequest::OpenWriter)
                } else {
                    self.ask(Phase::Committing, CatalogRequest::Commit)
                }
            },
            CatalogReply::Done => match self.phase {
                Phase::Creating => {
                    self.created = true;
                    self.ask(Phase::Loading, CatalogRequest::LoadTable)
                },
                Phase::OpeningWriter => self.ask(Phase::Appending, CatalogRequest::Append),
                Phase::Appending => self.ask(Phase::ClosingWriter, CatalogRequest::CloseWriter),
                Phase::ClosingWriter => self.ask(Phase::Committing, CatalogRequest::Commit),
                Phase::Committing => {
                    self.phase = Phase::Succeeded;
                    CatalogStep::Finished(Ok(()))
                },
                _ => self.fail(RouteError::SinkUnavailable),
            },
        }
    }
}

/// Every answer brings a delivery nearer to its end: a request leaves it
/// strictly nearer, and an outcome ends it. A delivery therefore asks at
/// most `distance` requests.
pub proof fn lemma_delivery_ends(s: RouteState, reply: CatalogReplySpec)
    requires
        !is_final(s.phase),
    ensures
        spec_advance(s, reply).1 is Request ==> distance(spec_advance(s, reply).0) < distance(s),
        spec_advance(s, reply).1 matches CatalogStep::Finished(r) ==> is_final(
            spec_advance(s, reply).0.phase,
        ) && outcome(spec_advance(s, reply).0.phase) == r,
{
}

/// Creation only on first use: the catalog is asked to create the target
/// table exactly where it has just said that the table does not exist.
pub proof fn lemma_create_only_when_absent(s: RouteState, reply: CatalogReplySpec)
    ensures
        spec_advance(s, reply).1 == CatalogStep::Request(CatalogRequest::CreateTable) <==> s.phase
            is CheckingExistence && reply == CatalogReplySpec::Exists(false),
{
}

/// No commit on a stale table: a commit is requested only after the writer
/// was closed, or after the table was loaded again, and a refused commit is
/// never answered with another commit.
pub proof fn lemma_commit_follows_load(s: RouteState, reply: CatalogReplySpec)
    ensures
        spec_advance(s, reply).1 == CatalogStep::Request(CatalogRequest::Commit) ==> (s.phase
            is ClosingWriter && reply is Done) || (s.phase is Reloading && reply is Loaded),
        s.phase is Committing && reply == CatalogReplySpec::Failed(RouteError::CommitConflict)
            ==> spec_advance(s, reply).1 == if s.retries > 0 {
            CatalogStep::Request(CatalogRequest::LoadTable)
        } else {
            CatalogStep::Finished(Err(RouteError::CommitConflict))
        },
{
}

} // verus!
