//! Routing of normalised tables to the sinks: the query surface that holds
//! the latest table under each name, the writers of a file export, and who
//! is asked next when a run has several sinks.

use crate::payload::{lemma_table_name_is_injective, PayloadType};
use crate::table::{same_text, FieldSpec, Schema, Table, TableView};
use vstd::prelude::*;

verus! {

/// Why a table did not reach a sink.
#[derive(Clone, Copy, Debug, PartialEq, Eq, Structural)]
pub enum RouteError {
    /// The sink cannot take tables.
    SinkUnavailable,
    /// The schema of the table differs from that of the target in the sink.
    SchemaMismatch,
    /// The catalog refused the commit because of a commit that came first.
    CommitConflict,
}

/// How a target came to be in its sink.
#[derive(Clone, Copy, Debug, PartialEq, Eq, Structural)]
pub enum Existence {
    /// The run created it on the first table that it wrote.
    Created,
    /// It was there before the run.
    PreExisting,
}

/// The unit of a sink that takes the tables of one kind of payload.
#[derive(Debug)]
pub struct SinkTarget {
    /// The name of the target: the table name of the kind, with the prefix
    /// or below the root of the sink.
    pub table_name: String,
    /// The schema of the first table that was written to it.
    pub schema: Schema,
    /// Whether the run created the target.
    pub existence: Existence,
}

/// What a target states.
pub struct SinkTargetSpec {
    pub table_name: Seq<char>,
    pub schema: Seq<FieldSpec>,
    pub existence: Existence,
}

impl View for SinkTarget {
    type V = SinkTargetSpec;

    open spec fn view(&self) -> SinkTargetSpec {
        SinkTargetSpec {
            table_name: self.table_name@,
            schema: self.schema@,
            existence: self.existence,
        }
    }
}

/// The characters of each of a list of texts.
pub open spec fn texts_view(texts: Seq<String>) -> Seq<Seq<char>> {
    Seq::new(texts.len(), |i: int| texts[i]@)
}

/// The tables that queries see, each under its name. A name has one table,
/// the one registered last.
#[derive(Debug)]
pub struct QuerySurface {
    names: Vec<String>,
    tables: Vec<Table>,
}

impl View for QuerySurface {
    type V = Map<Seq<char>, TableView>;

    closed spec fn view(&self) -> Map<Seq<char>, TableView> {
        Map::new(
            |name: Seq<char>| texts_view(self.names@).contains(name),
            |name: Seq<char>| self.tables@[texts_view(self.names@).index_of(name)]@,
        )
    }
}

impl QuerySurface {
    /// Every name stands once and has its table.
    pub closed spec fn wf(&self) -> bool {
        &&& self.names@.len() == self.tables@.len()
        &&& texts_view(self.names@).no_duplicates()
    }

    /// The place of a name among the registered names.
    fn find(&self, name: &str) -> (r: Option<usize>)
        ensures
            match r {
                Some(i) => i < self.names@.len() && self.names@[i as int]@ == name@,
                None => !texts_view(self.names@).contains(name@),
            },
    {
        let mut i: usize = 0;
        while i < self.names.len()
            invariant
                i <= self.names@.len(),
                forall|j: int| 0 <= j < i ==> texts_view(self.names@)[j] != name@,
            decreases self.names@.len() - i,
        {
            if same_text(self.names[i].as_str(), name) {
                return Some(i);
            }
            i += 1;
        }
        None
    }

    /// A query surface without tables.
    pub fn new() -> (r: QuerySurface)
        ensures
            r.wf(),
            r@ == Map::<Seq<char>, TableView>::empty(),
    {
        let r = QuerySurface { names: Vec::new(), tables: Vec::new() };
        assert(r@ =~= Map::<Seq<char>, TableView>::empty());
        r
    }

    /// Registers a table under a name. A table that stood under the name is
    /// replaced; the tables under other names stay. Returns whether a table
    /// was replaced.
    pub fn register(&mut self, name: &str, table: Table) -> (replaced: bool)
        requires
            old(self).wf(),
        ensures
            final(self).wf(),
            final(self)@ == old(self)@.insert(name@, table@),
            replaced == old(self)@.contains_key(name@),
    {
        let ghost names = texts_view(self.names@);
        let ghost tables = self.tables@;
        match self.find(name) {
            Some(i) => {
                self.tables[i] = table;
                proof {
                    assert(names[i as int] == name@);
                    assert forall|n: Seq<char>| names.contains(n) implies (#[trigger] self@[n])
                        == old(self)@.insert(name@, table@)[n] by {
                        let k = names.index_of(n);
                        assert(names[k] == n);
                        if n == name@ {
                            assert(k == i);
                        }
                    }
                    assert(self@ =~= old(self)@.insert(name@, table@));
                }
                true
            },
            None => {
                self.names.push(String::from_str(name));
                self.tables.push(table);
                proof {
                    let after = texts_view(self.names@);
                    assert(after =~= names.push(name@));
                    assert(after.no_duplicates());
                    assert forall|n: Seq<char>| after.contains(n) <==> (names.contains(n) || n
                        == name@) by {
                        if names.contains(n) {
                            let k = names.index_of(n);
                            assert(after[k] == n);
                        }
                        if n == name@ {
                            assert(after[names.len() as int] == n);
                        }
                    }
                    assert forall|n: Seq<char>| after.contains(n) implies (#[trigger] self@[n])
                        == old(self)@.insert(name@, table@)[n] by {
                        let k = after.index_of(n);
                        assert(after[k] == n);
                        if n != name@ {
                            let j = names.index_of(n);
                            assert(names[j] == n);
                            assert(after[j] == n);
                            assert(k == j);
                        } else {
                            assert(k == names.len());
                        }
                    }
                    assert(self@ =~= old(self)@.insert(name@, table@));
                }
                false
            },
        }
    }

    /// The table registered under a name.
    pub fn get(&self, name: &str) -> (r: Option<&Table>)
        requires
            self.wf(),
        ensures
            match r {
                Some(t) => self@.contains_key(name@) && t@ == self@[name@],
                None => !self@.contains_key(name@),
            },
    {
        match self.find(name) {
            Some(i) => {
                proof {
                    let names = texts_view(self.names@);
                    assert(names[i as int] == name@);
                    let k = names.index_of(name@);
                    assert(names[k] == name@);
                    assert(k == i);
                }
                Some(&self.tables[i])
            },
            None => None,
        }
    }

    /// The number of names that have a table.
    pub fn len(&self) -> (n: usize)
        requires
            self.wf(),
        ensures
            self@.dom().finite(),
            n == self@.dom().len(),
    {
        proof {
            let names = texts_view(self.names@);
            names.unique_seq_to_set();
            assert(self@.dom() =~= names.to_set());
            vstd::seq_lib::seq_to_set_is_finite(names);
        }
        self.names.len()
    }
}

/// Idempotent registration: a name registered twice has one table, the one
/// registered last, and the tables under other names are those of before.
pub proof fn lemma_register_twice(
    surface: Map<Seq<char>, TableView>,
    name: Seq<char>,
    first: TableView,
    second: TableView,
)
    ensures
        surface.insert(name, first).insert(name, second) == surface.insert(name, second),
        surface.insert(name, first).insert(name, second)[name] == second,
        surface.insert(name, first).insert(name, second).dom() == surface.dom().insert(name),
{
    assert(surface.insert(name, first).insert(name, second) =~= surface.insert(name, second));
    assert(surface.insert(name, first).insert(name, second).dom() =~= surface.dom().insert(name));
}

/// The path of the file that holds the tables of a kind below a root
/// directory: the root, the table name of the kind, and `data.parquet`.
pub open spec fn file_path(root: Seq<char>, kind: PayloadType) -> Seq<char> {
    root + "/"@ + kind.spec_table_name() + "/data.parquet"@
}

/// Where a file export stands.
pub struct FileExportState {
    /// The directory below which the files lie.
    pub root: Seq<char>,
    /// The kinds for which a writer has been opened, in the order of opening.
    pub kinds: Seq<PayloadType>,
    /// The schema with which the writer of each of those kinds was opened.
    pub schemas: Seq<Seq<FieldSpec>>,
    /// Whether the writers have been closed.
    pub closed: bool,
}

/// What the caller does for one table of a file export.
#[derive(Debug)]
pub struct FilePlan {
    /// The path of the file that takes the rows of the table.
    pub path: String,
    /// Whether the writer of the path is opened first, with the schema of
    /// the table. Where it is not, the writer that is open takes the rows.
    pub open: bool,
}

/// What routing a table of the given kind and schema makes of a file export.
///
/// A closed export takes no table. The first table of a kind opens the
/// writer of the kind with its schema. A later table of the kind goes to
/// that writer, and must have that schema.
pub open spec fn spec_file_route(s: FileExportState, kind: PayloadType, fields: Seq<FieldSpec>) -> (
    FileExportState,
    Result<(Seq<char>, bool), RouteError>,
) {
    if s.closed {
        (s, Err(RouteError::SinkUnavailable))
    } else if s.kinds.contains(kind) {
        if s.schemas[s.kinds.index_of(kind)] == fields {
            (s, Ok((file_path(s.root, kind), false)))
        } else {
            (s, Err(RouteError::SchemaMismatch))
        }
    } else {
        (
            FileExportState {
                root: s.root,
                kinds: s.kinds.push(kind),
                schemas: s.schemas.push(fields),
                closed: false,
            },
            Ok((file_path(s.root, kind), true)),
        )
    }
}

/// The writers of one run of a file export: one for each kind of payload
/// that had a table, opened with the schema of the first table of the kind.
#[derive(Debug)]
pub struct FileExport {
    root: String,
    kinds: Vec<PayloadType>,
    schemas: Vec<Schema>,
    closed: bool,
}

/// The fields of each of a list of schemas.
pub open spec fn schemas_view(schemas: Seq<Schema>) -> Seq<Seq<FieldSpec>> {
    Seq::new(schemas.len(), |i: int| schemas[i]@)
}

impl View for FileExport {
    type V = FileExportState;

    closed spec fn view(&self) -> FileExportState {
        FileExportState {
            root: self.root@,
            kinds: self.kinds@,
            schemas: schemas_view(self.schemas@),
            closed: self.closed,
        }
    }
}

impl FileExportState {
    /// Every kind has at most one writer, and every writer has a schema.
    pub open spec fn wf(self) -> bool {
        &&& self.kinds.len() == self.schemas.len()
        &&& self.kinds.no_duplicates()
    }
}

impl FileExport {

    /// A file export below the given root directory, with no writer open.
    pub fn new(root: &str) -> (r: FileExport)
        ensures
            r@ == (FileExportState {
                root: root@,
                kinds: Seq::empty(),
                schemas: Seq::empty(),
                closed: false,
            }),
            r@.wf(),
    {
        let r = FileExport {
            root: String::from_str(root),
            kinds: Vec::new(),
            schemas: Vec::new(),
            closed: false,
        };
        assert(schemas_view(r.schemas@) =~= Seq::<Seq<FieldSpec>>::empty());
        r
    }

    /// The path of the file for a kind of payload.
    pub fn path_of(&self, kind: PayloadType) -> (path: String)
        ensures
            path@ == file_path(self@.root, kind),
    {
        let name = kind.table_name();
        self.root.clone().concat("/").concat(name.as_str()).concat("/data.parquet")
    }

    /// The place of the writer of a kind.
    fn find(&self, kind: PayloadType) -> (r: Option<usize>)
        ensures
            match r {
                Some(i) => i < self.kinds@.len() && self.kinds@[i as int] == kind,
                None => !self.kinds@.contains(kind),
            },
    {
        let mut i: usize = 0;
        while i < self.kinds.len()
            invariant
                i <= self.kinds@.len(),
                forall|j: int| 0 <= j < i ==> self.kinds@[j] != kind,
            decreases self.kinds@.len() - i,
        {
            if self.kinds[i] == kind {
                return Some(i);
            }
            i += 1;
        }
        None
    }

    /// The target of a kind of payload, where a table of the kind has opened
    /// a writer: the file of the kind, with the schema of that table. The
    /// files of an export are all created by the run.
    pub fn target(&self, kind: PayloadType) -> (r: Option<SinkTarget>)
        requires
            self@.wf(),
        ensures
            r is Some <==> self@.kinds.contains(kind),
            r matches Some(t) ==> t@ == (SinkTargetSpec {
                table_name: file_path(self@.root, kind),
                schema: self@.schemas[self@.kinds.index_of(kind)],
                existence: Existence::Created,
            }),
    {
        match self.find(kind) {
            Some(i) => {
                proof {
                    let k = self.kinds@.index_of(kind);
                    assert(self.kinds@[k] == kind);
                    assert(k == i);
                }
                Some(
                    SinkTarget {
                        table_name: self.path_of(kind),
                        schema: self.schemas[i].clone(),
                        existence: Existence::Created,
                    },
                )
            },
            None => None,
        }
    }

    /// Plans the export of one table: says to which path its rows go, and
    /// whether the writer of that path has to be opened first.
    pub fn route(&mut self, kind: PayloadType, table: &Table) -> (r: Result<FilePlan, RouteError>)
        requires
            old(self)@.wf(),
        ensures
            final(self)@.wf(),
            final(self)@ == spec_file_route(old(self)@, kind, table@.fields).0,
            match r {
                Ok(plan) => spec_file_route(old(self)@, kind, table@.fields).1 == Ok::<
                    (Seq<char>, bool),
                    RouteError,
                >((plan.path@, plan.open)),
                Err(e) => spec_file_route(old(self)@, kind, table@.fields).1 == Err::<
                    (Seq<char>, bool),
                    RouteError,
                >(e),
            },
    {
        if self.closed {
            return Err(RouteError::SinkUnavailable);
        }
        match self.find(kind) {
            Some(i) => {
                proof {
                    let k = self.kinds@.index_of(kind);
                    assert(self.kinds@[k] == kind);
                    assert(k == i);
                }
                if self.schemas[i].same_as(table.schema()) {
                    Ok(FilePlan { path: self.path_of(kind), open: false })
                } else {
                    Err(RouteError::SchemaMismatch)
                }
            },
            None => {
                let path = self.path_of(kind);
                let ghost before = schemas_view(self.schemas@);
                let schema = table.schema().clone();
                self.kinds.push(kind);
                self.schemas.push(schema);
                assert(schemas_view(self.schemas@) =~= before.push(table@.fields));
                Ok(FilePlan { path, open: true })
            },
        }
    }

    /// Closes the export: returns the path of every writer that is open, each
    /// once and in the order of opening. The caller closes them. A closed
    /// export has no open writer and takes no further table.
    pub fn finalize(&mut self) -> (paths: Vec<String>)
        ensures
            final(self)@ == (FileExportState { closed: true, ..old(self)@ }),
            texts_view(paths@) == if old(self)@.closed {
                Seq::<Seq<char>>::empty()
            } else {
                Seq::new(
                    old(self)@.kinds.len(),
                    |i: int| file_path(old(self)@.root, old(self)@.kinds[i]),
                )
            },
    {
        let mut paths: Vec<String> = Vec::new();
        if self.closed {
            assert(texts_view(paths@) =~= Seq::<Seq<char>>::empty());
            return paths;
        }
        let mut i: usize = 0;
        while i < self.kinds.len()
            invariant
                i <= self.kinds@.len(),
                paths@.len() == i,
                forall|j: int|
                    0 <= j < i ==> (#[trigger] paths@[j])@ == file_path(self@.root, self.kinds@[j]),
            decreases self.kinds@.len() - i,
        {
            paths.push(self.path_of(self.kinds[i]));
            i += 1;
        }
        self.closed = true;
        assert(texts_view(paths@) =~= Seq::new(
            old(self)@.kinds.len(),
            |i: int| file_path(old(self)@.root, old(self)@.kinds[i]),
        ));
        paths
    }
}

/// One writer per path: a kind that has a writer is never told to open one,
/// a kind that is told to open one has a writer afterwards, and no routing
/// takes a writer away.
pub proof fn lemma_writer_opens_once(
    s: FileExportState,
    kind: PayloadType,
    fields: Seq<FieldSpec>,
    other: PayloadType,
)
    requires
        s.wf(),
    ensures
        spec_file_route(s, kind, fields).0.wf(),
        s.kinds.contains(kind) ==> !(spec_file_route(s, kind, fields).1 matches Ok(plan) && plan.1),
        spec_file_route(s, kind, fields).1 matches Ok(plan) ==> spec_file_route(
            s,
            kind,
            fields,
        ).0.kinds.contains(kind),
        s.kinds.contains(other) ==> spec_file_route(s, kind, fields).0.kinds.contains(other),
{
    let after = spec_file_route(s, kind, fields).0;
    if !s.closed && !s.kinds.contains(kind) {
        assert(after.kinds[s.kinds.len() as int] == kind);
        if s.kinds.contains(other) {
            let k = s.kinds.index_of(other);
            assert(s.kinds[k] == other);
            assert(after.kinds[k] == other);
        }
    }
}

/// Two kinds never share a path below one root.
pub proof fn lemma_paths_differ(root: Seq<char>, a: PayloadType, b: PayloadType)
    requires
        file_path(root, a) == file_path(root, b),
    ensures
        a == b,
{
    let head = root + "/"@;
    let tail = "/data.parquet"@;
    let x = a.spec_table_name();
    let y = b.spec_table_name();
    assert(file_path(root, a) == head + x + tail);
    assert(file_path(root, b) == head + y + tail);
    assert((head + x + tail).len() == head.len() + x.len() + tail.len());
    assert((head + y + tail).len() == head.len() + y.len() + tail.len());
    assert(x.len() == y.len());
    assert forall|i: int| 0 <= i < x.len() implies x[i] == y[i] by {
        assert((head + x + tail)[head.len() + i] == x[i]);
        assert((head + y + tail)[head.len() + i] == y[i]);
    }
    assert(x =~= y);
    lemma_table_name_is_injective(a, b);
}

/// What a run does after a sink has failed.
#[derive(Clone, Copy, Debug, PartialEq, Eq, Structural)]
pub enum RoutePolicy {
    /// Report the failure and go on with the other sinks.
    ReportAndContinue,
    /// Ask no further sink.
    AbortOnFirstError,
}

/// Whether one of the results is an error.
pub open spec fn any_failed(results: Seq<Result<(), RouteError>>) -> bool {
    exists|i: int| 0 <= i < results.len() && (#[trigger] results[i]) is Err
}

/// The sink that is asked next, given the results of the sinks asked so far,
/// in their order: the next in line, unless all have been asked, or one has
/// failed and the policy is to abort.
pub open spec fn spec_next_sink(
    policy: RoutePolicy,
    sinks: nat,
    results: Seq<Result<(), RouteError>>,
) -> Option<nat> {
    if results.len() >= sinks {
        None
    } else if policy is AbortOnFirstError && any_failed(results) {
        None
    } else {
        Some(results.len())
    }
}

/// The number of errors among the results.
pub open spec fn count_failed(results: Seq<Result<(), RouteError>>) -> nat
    decreases results.len(),
{
    if results.len() == 0 {
        0
    } else {
        count_failed(results.drop_last()) + if results.last() is Err {
            1nat
        } else {
            0nat
        }
    }
}

/// The sink that is asked next for a table, given the number of sinks of the
/// run and the results of those asked so far.
pub fn next_sink(policy: RoutePolicy, sinks: usize, results: &Vec<Result<(), RouteError>>) -> (r:
    Option<usize>)
    ensures
        match r {
            Some(i) => spec_next_sink(policy, sinks as nat, results@) == Some(i as nat),
            None => spec_next_sink(policy, sinks as nat, results@) is None,
        },
{
    if results.len() >= sinks {
        return None;
    }
    if policy == RoutePolicy::AbortOnFirstError {
        let mut i: usize = 0;
        while i < results.len()
            invariant
                i <= results@.len(),
                results@.len() < sinks,
                policy is AbortOnFirstError,
                forall|j: int| 0 <= j < i ==> !((#[trigger] results@[j]) is Err),
            decreases results@.len() - i,
        {
            if results[i].is_err() {
                assert(results@[i as int] is Err);
                return None;
            }
            i += 1;
        }
    }
    Some(results.len())
}

/// Whether a run goes on to route further tables after `failed` sinks have
/// failed: always under `ReportAndContinue`, and only while none has failed
/// under `AbortOnFirstError`.
pub open spec fn spec_routes_on(policy: RoutePolicy, failed: nat) -> bool {
    policy is ReportAndContinue || failed == 0
}

/// Whether a run goes on to route further tables after `failed` sinks have
/// failed.
pub fn routes_on(policy: RoutePolicy, failed: usize) -> (b: bool)
    ensures
        b == spec_routes_on(policy, failed as nat),
{
    policy == RoutePolicy::ReportAndContinue || failed == 0
}

/// The number of sinks that failed.
pub fn failed_sinks(results: &Vec<Result<(), RouteError>>) -> (n: usize)
    ensures
        n == count_failed(results@),
        n <= results@.len(),
{
    let mut n: usize = 0;
    let mut i: usize = 0;
    while i < results.len()
        invariant
            i <= results@.len(),
            n <= i,
            n == count_failed(results@.take(i as int)),
        decreases results@.len() - i,
    {
        assert(results@.take(i + 1).drop_last() =~= results@.take(i as int));
        if results[i].is_err() {
            n += 1;
        }
        i += 1;
    }
    assert(results@.take(i as int) =~= results@);
    n
}

/// Report and continue: under that policy a failure keeps no sink from being
/// asked. Every sink is asked, in order, until each has a result.
pub proof fn lemma_continue_asks_every_sink(sinks: nat, results: Seq<Result<(), RouteError>>)
    ensures
        spec_next_sink(RoutePolicy::ReportAndContinue, sinks, results) == if results.len() < sinks {
            Some(results.len())
        } else {
            None::<nat>
        },
{
}

} // verus!
