//! The run over the payloads of a container: every payload is rebuilt and
//! normalised by itself, what succeeded is kept, what failed is recorded, and
//! the failure of one payload does not touch the others.

use crate::normalize::{
    normalize, spec_apply_all, NormalizationRules, NormalizeError, TransformSpec,
};
use crate::payload::PayloadType;
use crate::reconstruct::{
    events_view, first_stop, lemma_first_stop_at, lemma_first_stop_at_least, spec_step,
    stream_error, tables_before_stop, tables_view, ReaderState, ReconstructError,
    ReconstructErrorSpec, Reconstructor, StreamEvent, StreamEventSpec, StreamStep, StreamStepSpec,
};
use crate::table::{Table, TableView};
use vstd::prelude::*;

verus! {

/// The reads of the embedded stream of one payload, with what the payload
/// says of itself.
#[derive(Debug)]
pub struct PayloadStream {
    pub schema_id: String,
    pub payload_type: PayloadType,
    pub events: Vec<StreamEvent>,
}

/// What a payload stream states.
pub struct PayloadStreamSpec {
    pub schema_id: Seq<char>,
    pub payload_type: PayloadType,
    pub events: Seq<StreamEventSpec>,
}

impl View for PayloadStream {
    type V = PayloadStreamSpec;

    open spec fn view(&self) -> PayloadStreamSpec {
        PayloadStreamSpec {
            schema_id: self.schema_id@,
            payload_type: self.payload_type,
            events: events_view(self.events@),
        }
    }
}

/// Why a payload gave no table, or not all of its tables.
#[derive(Debug)]
pub enum PayloadError {
    /// The embedded stream could not be read to its end.
    Reconstruct(ReconstructError),
    /// A table of the payload with the given schema identifier and kind
    /// could not be normalised.
    Normalize(String, PayloadType, NormalizeError),
}

/// What a payload error states.
pub enum PayloadErrorSpec {
    Reconstruct(ReconstructErrorSpec),
    Normalize(Seq<char>, PayloadType, NormalizeError),
}

impl View for PayloadError {
    type V = PayloadErrorSpec;

    open spec fn view(&self) -> PayloadErrorSpec {
        match self {
            PayloadError::Reconstruct(e) => PayloadErrorSpec::Reconstruct(e@),
            PayloadError::Normalize(id, kind, e) => PayloadErrorSpec::Normalize(id@, *kind, *e),
        }
    }
}

/// What to do with the tables of a payload that came before its failure.
#[derive(Clone, Copy, Debug, PartialEq, Eq, Structural)]
pub enum PartialPolicy {
    /// Keep them.
    Keep,
    /// Drop them: a payload that failed gives no table.
    Discard,
}

/// The normalised tables of the leading tables that can be normalised.
pub open spec fn normalized_prefix(tables: Seq<TableView>, steps: Seq<TransformSpec>) -> Seq<
    TableView,
>
    decreases tables.len(),
{
    if tables.len() == 0 {
        Seq::empty()
    } else {
        match spec_apply_all(tables[0], steps) {
            Ok(out) => seq![out] + normalized_prefix(tables.skip(1), steps),
            Err(_) => Seq::empty(),
        }
    }
}

/// The error of the first table that cannot be normalised.
pub open spec fn first_normalize_error(tables: Seq<TableView>, steps: Seq<TransformSpec>) -> Option<
    NormalizeError,
>
    decreases tables.len(),
{
    if tables.len() == 0 {
        None
    } else {
        match spec_apply_all(tables[0], steps) {
            Ok(_) => first_normalize_error(tables.skip(1), steps),
            Err(e) => Some(e),
        }
    }
}

/// The error of a payload, if it has one: that of the first table that
/// cannot be normalised, else that of the stream.
pub open spec fn payload_error(p: PayloadStreamSpec, steps: Seq<TransformSpec>) -> Option<
    PayloadErrorSpec,
> {
    match first_normalize_error(tables_before_stop(p.events), steps) {
        Some(e) => Some(PayloadErrorSpec::Normalize(p.schema_id, p.payload_type, e)),
        None => match stream_error(p.schema_id, p.payload_type, p.events) {
            Some(e) => Some(PayloadErrorSpec::Reconstruct(e)),
            None => None,
        },
    }
}

/// The tables that a payload gives: its fragments up to the first that
/// cannot be read, normalised in their order up to the first that cannot be
/// normalised. Under `Discard` a payload with an error gives none.
pub open spec fn payload_tables(
    p: PayloadStreamSpec,
    steps: Seq<TransformSpec>,
    policy: PartialPolicy,
) -> Seq<TableView> {
    if policy is Discard && payload_error(p, steps) is Some {
        Seq::empty()
    } else {
        normalized_prefix(tables_before_stop(p.events), steps)
    }
}

/// What became of one payload.
#[derive(Debug)]
pub struct PayloadOutcome {
    pub payload_type: PayloadType,
    pub tables: Vec<Table>,
    pub error: Option<PayloadError>,
}

/// What an outcome states.
pub struct PayloadOutcomeSpec {
    pub payload_type: PayloadType,
    pub tables: Seq<TableView>,
    pub error: Option<PayloadErrorSpec>,
}

impl View for PayloadOutcome {
    type V = PayloadOutcomeSpec;

    open spec fn view(&self) -> PayloadOutcomeSpec {
        PayloadOutcomeSpec {
            payload_type: self.payload_type,
            tables: tables_view(self.tables@),
            error: match self.error {
                Some(e) => Some(e@),
                None => None,
            },
        }
    }
}

/// What becomes of a payload under the given transforms and policy.
pub open spec fn spec_process_payload(
    p: PayloadStreamSpec,
    steps: Seq<TransformSpec>,
    policy: PartialPolicy,
) -> PayloadOutcomeSpec {
    PayloadOutcomeSpec {
        payload_type: p.payload_type,
        tables: payload_tables(p, steps, policy),
        error: payload_error(p, steps),
    }
}

/// Reverses a list, so that its items can be taken from the back in their
/// first order.
fn reversed<T>(items: Vec<T>) -> (r: Vec<T>)
    ensures
        r@ == items@.reverse(),
{
    let ghost all = items@;
    let mut items = items;
    let mut r: Vec<T> = Vec::new();
    while items.len() > 0
        invariant
            items@.len() + r@.len() == all.len(),
            forall|i: int| 0 <= i < items@.len() ==> items@[i] == all[i],
            forall|j: int| 0 <= j < r@.len() ==> r@[j] == all[all.len() - 1 - j],
        decreases items@.len(),
    {
        let last = items.pop().unwrap();
        r.push(last);
    }
    assert(r@ =~= all.reverse());
    r
}

/// What the caller does after reporting a read of the stream of a payload.
#[derive(Debug)]
pub enum PayloadStep {
    /// Hand the normalised table on and read the next fragment.
    Table(Table),
    /// Stop reading: the payload has ended, or had ended before.
    Finished,
    /// Stop reading and report the error.
    Failed(PayloadError),
}

/// What a step states.
pub enum PayloadStepSpec {
    Table(TableView),
    Finished,
    Failed(PayloadErrorSpec),
}

impl View for PayloadStep {
    type V = PayloadStepSpec;

    open spec fn view(&self) -> PayloadStepSpec {
        match self {
            PayloadStep::Table(t) => PayloadStepSpec::Table(t@),
            PayloadStep::Finished => PayloadStepSpec::Finished,
            PayloadStep::Failed(e) => PayloadStepSpec::Failed(e@),
        }
    }
}

/// Where the processing of one payload stands.
pub struct ProcessorState {
    /// Where the reading of the stream stands.
    pub reader: ReaderState,
    /// Whether a table could not be normalised.
    pub stopped: bool,
}

impl ProcessorState {
    /// Whether further reads are taken.
    pub open spec fn open(self) -> bool {
        self.reader.open && !self.stopped
    }
}

/// The state after a read, and what the caller does.
///
/// While the payload is open, a fragment is normalised and handed on, and
/// the end of the stream or a fragment that cannot be read ends the payload
/// as it ends the stream. A fragment that cannot be normalised ends the
/// payload with its error. Once the payload has ended, every read is
/// answered with `Finished`.
pub open spec fn spec_payload_step(
    s: ProcessorState,
    event: StreamEventSpec,
    steps: Seq<TransformSpec>,
) -> (ProcessorState, PayloadStepSpec) {
    if !s.open() {
        (s, PayloadStepSpec::Finished)
    } else {
        let (reader, step) = spec_step(s.reader, event);
        match step {
            StreamStepSpec::Yield(t) => match spec_apply_all(t, steps) {
                Ok(out) => (ProcessorState { reader, stopped: false }, PayloadStepSpec::Table(out)),
                Err(e) => (
                    ProcessorState { reader, stopped: true },
                    PayloadStepSpec::Failed(
                        PayloadErrorSpec::Normalize(s.reader.schema_id, s.reader.payload_type, e),
                    ),
                ),
            },
            StreamStepSpec::Finished => (
                ProcessorState { reader, stopped: false },
                PayloadStepSpec::Finished,
            ),
            StreamStepSpec::Failed(e) => (
                ProcessorState { reader, stopped: false },
                PayloadStepSpec::Failed(PayloadErrorSpec::Reconstruct(e)),
            ),
        }
    }
}

/// Follows the stream of one payload read by read, and normalises each
/// fragment as it comes.
#[derive(Debug)]
pub struct PayloadProcessor {
    reader: Reconstructor,
    stopped: bool,
}

impl View for PayloadProcessor {
    type V = ProcessorState;

    closed spec fn view(&self) -> ProcessorState {
        ProcessorState { reader: self.reader@, stopped: self.stopped }
    }
}

impl PayloadProcessor {
    /// A processor at the start of the stream of a payload with the given
    /// schema identifier and kind.
    pub fn new(schema_id: &str, payload_type: PayloadType) -> (r: PayloadProcessor)
        ensures
            r@ == (ProcessorState {
                reader: ReaderState {
                    schema_id: schema_id@,
                    payload_type,
                    yielded: false,
                    open: true,
                },
                stopped: false,
            }),
    {
        PayloadProcessor { reader: Reconstructor::new(schema_id, payload_type), stopped: false }
    }

    /// Whether further reads are taken.
    pub fn is_open(&self) -> (b: bool)
        ensures
            b == self@.open(),
    {
        self.reader.is_open() && !self.stopped
    }

    /// Takes what a read gave and says what to do next.
    pub fn step(&mut self, event: StreamEvent, rules: &NormalizationRules) -> (r: PayloadStep)
        ensures
            (final(self)@, r@) == spec_payload_step(
                old(self)@,
                event@,
                rules.steps_for(old(self)@.reader.payload_type),
            ),
    {
        if !self.is_open() {
            return PayloadStep::Finished;
        }
        let kind = self.reader.payload_type();
        match self.reader.step(event) {
            StreamStep::Yield(table) => match normalize(table, kind, rules) {
                Ok(out) => PayloadStep::Table(out),
                Err(e) => {
                    self.stopped = true;
                    PayloadStep::Failed(
                        PayloadError::Normalize(self.reader.schema_id().clone(), kind, e),
                    )
                },
            },
            StreamStep::Finished => PayloadStep::Finished,
            StreamStep::Failed(e) => PayloadStep::Failed(PayloadError::Reconstruct(e)),
        }
    }
}

/// Where every table can be normalised, the normalised prefix is all of
/// them and there is no error.
proof fn lemma_all_normalized(tables: Seq<TableView>, steps: Seq<TransformSpec>, outs: Seq<TableView>)
    requires
        outs.len() == tables.len(),
        forall|i: int|
            0 <= i < tables.len() ==> spec_apply_all(#[trigger] tables[i], steps) == Ok::<
                TableView,
                NormalizeError,
            >(outs[i]),
    ensures
        normalized_prefix(tables, steps) == outs,
        first_normalize_error(tables, steps) is None,
    decreases tables.len(),
{
    if tables.len() > 0 {
        let rest = tables.skip(1);
        let later = outs.skip(1);
        assert forall|i: int| 0 <= i < rest.len() implies spec_apply_all(#[trigger] rest[i], steps)
            == Ok::<TableView, NormalizeError>(later[i]) by {
            assert(rest[i] == tables[i + 1]);
        }
        lemma_all_normalized(rest, steps, later);
        assert(seq![outs[0]] + later =~= outs);
    } else {
        assert(outs =~= Seq::<TableView>::empty());
    }
}

/// Where the table at `k` is the first that cannot be normalised, the
/// normalised prefix is the tables before it and the error is its error.
proof fn lemma_normalized_until(
    tables: Seq<TableView>,
    steps: Seq<TransformSpec>,
    outs: Seq<TableView>,
    k: int,
    e: NormalizeError,
)
    requires
        0 <= k < tables.len(),
        outs.len() == k,
        forall|i: int|
            0 <= i < k ==> spec_apply_all(#[trigger] tables[i], steps) == Ok::<
                TableView,
                NormalizeError,
            >(outs[i]),
        spec_apply_all(tables[k], steps) == Err::<TableView, NormalizeError>(e),
    ensures
        normalized_prefix(tables, steps) == outs,
        first_normalize_error(tables, steps) == Some(e),
    decreases tables.len(),
{
    if k > 0 {
        let rest = tables.skip(1);
        let later = outs.skip(1);
        assert forall|i: int| 0 <= i < k - 1 implies spec_apply_all(#[trigger] rest[i], steps)
            == Ok::<TableView, NormalizeError>(later[i]) by {
            assert(rest[i] == tables[i + 1]);
        }
        assert(rest[k - 1] == tables[k]);
        lemma_normalized_until(rest, steps, later, k - 1, e);
        assert(seq![outs[0]] + later =~= outs);
    } else {
        assert(outs =~= Seq::<TableView>::empty());
    }
}

/// Rebuilds and normalises the tables of one payload.
///
/// The fragments are taken in stream order up to the first that cannot be
/// read, and each is normalised with the transforms that the rules give for
/// the kind of the payload. The first table that cannot be normalised ends
/// the payload with its error; else the error of the stream, if any, is that
/// of the payload. Under `Keep` the tables before the failure are returned
/// with the error; under `Discard` a failed payload returns none.
pub fn process_payload(stream: PayloadStream, rules: &NormalizationRules, policy: PartialPolicy) -> (r:
    PayloadOutcome)
    ensures
        r@ == spec_process_payload(stream@, rules.steps_for(stream.payload_type), policy),
{
    let ghost p = stream@;
    let ghost all = p.events;
    let ghost steps = rules.steps_for(stream.payload_type);
    let PayloadStream { schema_id, payload_type, events } = stream;
    let total = events.len();
    let mut pending = reversed(events);
    let mut processor = PayloadProcessor::new(schema_id.as_str(), payload_type);
    let mut tables: Vec<Table> = Vec::new();
    let mut error: Option<PayloadError> = None;
    let mut k: usize = 0;
    assert(tables_view(tables@) =~= Seq::<TableView>::empty());
    while k < total && processor.is_open()
        invariant
            k <= total,
            total == all.len(),
            pending@.len() == total - k,
            forall|j: int| 0 <= j < pending@.len() ==> (#[trigger] pending@[j])@ == all[total - 1 - j],
            processor@.reader.schema_id == p.schema_id,
            processor@.reader.payload_type == p.payload_type,
            p.events == all,
            steps == rules.steps_for(p.payload_type),
            processor@.open() ==> {
                &&& error is None
                &&& processor@.reader.yielded == (k > 0)
                &&& tables@.len() == k
                &&& forall|i: int| 0 <= i < k ==> (#[trigger] all[i]) is Fragment
                &&& forall|i: int|
                    0 <= i < k ==> spec_apply_all(all[i]->Fragment_0, steps) == Ok::<
                        TableView,
                        NormalizeError,
                    >((#[trigger] tables@[i])@)
            },
            !processor@.open() ==> {
                &&& tables_view(tables@) == normalized_prefix(tables_before_stop(all), steps)
                &&& match error {
                    Some(e) => payload_error(p, steps) == Some(e@),
                    None => payload_error(p, steps) is None,
                }
            },
        decreases total - k,
    {
        let event = pending.pop().unwrap();
        assert(event@ == all[k as int]);
        let ghost outs = tables_view(tables@);
        match processor.step(event, rules) {
            PayloadStep::Table(out) => {
                tables.push(out);
            },
            PayloadStep::Finished => {
                proof {
                    lemma_first_stop_at(all, k as int);
                    let sources = tables_before_stop(all);
                    assert forall|i: int| 0 <= i < sources.len() implies spec_apply_all(
                        #[trigger] sources[i],
                        steps,
                    ) == Ok::<TableView, NormalizeError>(outs[i]) by {
                        assert(all[i] is Fragment);
                        assert(outs[i] == tables@[i]@);
                    }
                    lemma_all_normalized(sources, steps, outs);
                }
            },
            PayloadStep::Failed(e) => {
                proof {
                    if all[k as int] is Fragment {
                        assert forall|i: int| 0 <= i < k + 1 implies (#[trigger] all[i])
                            is Fragment by {}
                        lemma_first_stop_at_least(all, k + 1);
                        let sources = tables_before_stop(all);
                        assert forall|i: int| 0 <= i < k implies spec_apply_all(
                            #[trigger] sources[i],
                            steps,
                        ) == Ok::<TableView, NormalizeError>(outs[i]) by {
                            assert(all[i] is Fragment);
                            assert(outs[i] == tables@[i]@);
                        }
                        assert(sources[k as int] == all[k as int]->Fragment_0);
                        lemma_normalized_until(
                            sources,
                            steps,
                            outs,
                            k as int,
                            e@->Normalize_2,
                        );
                    } else {
                        lemma_first_stop_at(all, k as int);
                        let sources = tables_before_stop(all);
                        assert forall|i: int| 0 <= i < sources.len() implies spec_apply_all(
                            #[trigger] sources[i],
                            steps,
                        ) == Ok::<TableView, NormalizeError>(outs[i]) by {
                            assert(all[i] is Fragment);
                            assert(outs[i] == tables@[i]@);
                        }
                        lemma_all_normalized(sources, steps, outs);
                    }
                }
                error = Some(e);
            },
        }
        k += 1;
    }
    proof {
        if processor@.open() {
            lemma_first_stop_at(all, k as int);
            let sources = tables_before_stop(all);
            let outs = tables_view(tables@);
            assert forall|i: int| 0 <= i < sources.len() implies spec_apply_all(
                #[trigger] sources[i],
                steps,
            ) == Ok::<TableView, NormalizeError>(outs[i]) by {
                assert(all[i] is Fragment);
                assert(outs[i] == tables@[i]@);
            }
            lemma_all_normalized(sources, steps, outs);
        }
    }
    if error.is_some() && policy == PartialPolicy::Discard {
        let none: Vec<Table> = Vec::new();
        assert(tables_view(none@) =~= Seq::<TableView>::empty());
        PayloadOutcome { payload_type, tables: none, error }
    } else {
        PayloadOutcome { payload_type, tables, error }
    }
}

/// What a list of outcomes states.
pub open spec fn outcomes_view(outcomes: Seq<PayloadOutcome>) -> Seq<PayloadOutcomeSpec> {
    Seq::new(outcomes.len(), |i: int| outcomes[i]@)
}

/// The number of outcomes with an error.
pub open spec fn count_errors(outcomes: Seq<PayloadOutcomeSpec>) -> nat
    decreases outcomes.len(),
{
    if outcomes.len() == 0 {
        0
    } else {
        count_errors(outcomes.drop_last()) + if outcomes.last().error is Some {
            1nat
        } else {
            0nat
        }
    }
}

/// The number of tables in all outcomes.
pub open spec fn count_tables(outcomes: Seq<PayloadOutcomeSpec>) -> nat
    decreases outcomes.len(),
{
    if outcomes.len() == 0 {
        0
    } else {
        count_tables(outcomes.drop_last()) + outcomes.last().tables.len()
    }
}

/// The outcome of every payload of a run, in the order of the payloads.
#[derive(Debug)]
pub struct RunReport {
    pub outcomes: Vec<PayloadOutcome>,
}

/// The counts of a run.
#[derive(Clone, Copy, Debug, PartialEq, Eq, Structural)]
pub struct RunSummary {
    /// The payloads of the run.
    pub payloads: usize,
    /// The payloads that ended with an error.
    pub failed: usize,
    /// The payloads that ended without one.
    pub completed: usize,
    /// The tables that the run gave; `None` where they are more than can be
    /// counted.
    pub tables: Option<usize>,
}

/// Processes the payloads of a container, each by itself and in their
/// order. Every payload has an outcome, whatever became of the others.
pub fn run(streams: Vec<PayloadStream>, rules: &NormalizationRules, policy: PartialPolicy) -> (r:
    RunReport)
    ensures
        r.outcomes@.len() == streams@.len(),
        forall|i: int|
            0 <= i < streams@.len() ==> (#[trigger] r.outcomes@[i])@ == spec_process_payload(
                streams@[i]@,
                rules.steps_for(streams@[i].payload_type),
                policy,
            ),
{
    let ghost all = streams@;
    let total = streams.len();
    let mut pending = reversed(streams);
    let mut outcomes: Vec<PayloadOutcome> = Vec::new();
    let mut k: usize = 0;
    while k < total
        invariant
            k <= total,
            total == all.len(),
            pending@.len() == total - k,
            forall|j: int| 0 <= j < pending@.len() ==> (#[trigger] pending@[j]) == all[total - 1 - j],
            outcomes@.len() == k,
            forall|i: int|
                0 <= i < k ==> (#[trigger] outcomes@[i])@ == spec_process_payload(
                    all[i]@,
                    rules.steps_for(all[i].payload_type),
                    policy,
                ),
        decreases total - k,
    {
        let stream = pending.pop().unwrap();
        assert(stream == all[k as int]);
        outcomes.push(process_payload(stream, rules, policy));
        k += 1;
    }
    RunReport { outcomes }
}

impl RunReport {
    /// Counts the payloads, the failures and the tables of the run. Every
    /// payload is counted once, as failed or as completed.
    pub fn summary(&self) -> (s: RunSummary)
        ensures
            s.payloads == self.outcomes@.len(),
            s.failed == count_errors(outcomes_view(self.outcomes@)),
            s.failed + s.completed == s.payloads,
            match s.tables {
                Some(n) => n == count_tables(outcomes_view(self.outcomes@)),
                None => count_tables(outcomes_view(self.outcomes@)) > usize::MAX,
            },
    {
        let ghost all = outcomes_view(self.outcomes@);
        let mut failed: usize = 0;
        let mut tables: Option<usize> = Some(0);
        let mut i: usize = 0;
        while i < self.outcomes.len()
            invariant
                i <= self.outcomes@.len(),
                all == outcomes_view(self.outcomes@),
                failed <= i,
                failed == count_errors(all.take(i as int)),
                match tables {
                    Some(n) => n == count_tables(all.take(i as int)),
                    None => count_tables(all.take(i as int)) > usize::MAX,
                },
            decreases self.outcomes@.len() - i,
        {
            assert(all.take(i + 1).drop_last() =~= all.take(i as int));
            assert(all.take(i + 1).last() == self.outcomes@[i as int]@);
            let outcome = &self.outcomes[i];
            if outcome.error.is_some() {
                failed += 1;
            }
            tables = match tables {
                Some(n) => n.checked_add(outcome.tables.len()),
                None => None,
            };
            i += 1;
        }
        assert(all.take(i as int) =~= all);
        RunSummary {
            payloads: self.outcomes.len(),
            failed,
            completed: self.outcomes.len() - failed,
            tables,
        }
    }
}

/// A payload whose first fragment cannot be read gives no table and the
/// error `InvalidStream`, whatever the transforms and the policy.
pub proof fn lemma_corrupt_first_fragment_skips_payload(
    p: PayloadStreamSpec,
    steps: Seq<TransformSpec>,
    policy: PartialPolicy,
)
    requires
        p.events.len() > 0,
        p.events[0] is Corrupt,
    ensures
        spec_process_payload(p, steps, policy).tables == Seq::<TableView>::empty(),
        spec_process_payload(p, steps, policy).error == Some(
            PayloadErrorSpec::Reconstruct(
                ReconstructErrorSpec::InvalidStream(p.schema_id, p.payload_type),
            ),
        ),
{
    assert(tables_before_stop(p.events) =~= Seq::<TableView>::empty());
    assert(payload_tables(p, steps, policy) =~= Seq::<TableView>::empty());
}

/// A stream without fragments is no error: the payload gives no table and
/// has no error.
pub proof fn lemma_empty_stream_is_valid(
    p: PayloadStreamSpec,
    steps: Seq<TransformSpec>,
    policy: PartialPolicy,
)
    requires
        p.events.len() == 0 || p.events[0] is End,
    ensures
        spec_process_payload(p, steps, policy).tables == Seq::<TableView>::empty(),
        spec_process_payload(p, steps, policy).error is None,
{
    assert(tables_before_stop(p.events) =~= Seq::<TableView>::empty());
    assert(payload_tables(p, steps, policy) =~= Seq::<TableView>::empty());
}

} // verus!
