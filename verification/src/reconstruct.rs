//! Rebuilding the tables of one payload from the fragments of its embedded
//! stream.
//!
//! Reading the stream is the caller's part. The caller reports what each
//! read gave: a table, a fragment that could not be read, or the end of the
//! stream. What that means for the payload is decided here.

use crate::payload::PayloadType;
use crate::table::{Table, TableView};
use vstd::prelude::*;

verus! {

/// What one read of an embedded stream gave.
#[derive(Debug)]
pub enum StreamEvent {
    /// The next fragment, as a table.
    Fragment(Table),
    /// The next fragment could not be read.
    Corrupt,
    /// The stream has no further fragment.
    End,
}

/// What a read of an embedded stream gave.
pub enum StreamEventSpec {
    Fragment(TableView),
    Corrupt,
    End,
}

impl View for StreamEvent {
    type V = StreamEventSpec;

    open spec fn view(&self) -> StreamEventSpec {
        match self {
            StreamEvent::Fragment(t) => StreamEventSpec::Fragment(t@),
            StreamEvent::Corrupt => StreamEventSpec::Corrupt,
            StreamEvent::End => StreamEventSpec::End,
        }
    }
}

/// Why the stream of a payload gave no table, or not all of them.
#[derive(Debug)]
pub enum ReconstructError {
    /// The first fragment of the stream could not be read. The payload has
    /// no table.
    InvalidStream(String, PayloadType),
    /// A later fragment could not be read. The tables before it stand.
    BrokenStream(String, PayloadType),
}

/// What a reconstruction error states.
pub enum ReconstructErrorSpec {
    InvalidStream(Seq<char>, PayloadType),
    BrokenStream(Seq<char>, PayloadType),
}

impl View for ReconstructError {
    type V = ReconstructErrorSpec;

    open spec fn view(&self) -> ReconstructErrorSpec {
        match self {
            ReconstructError::InvalidStream(id, kind) => ReconstructErrorSpec::InvalidStream(
                id@,
                *kind,
            ),
            ReconstructError::BrokenStream(id, kind) => ReconstructErrorSpec::BrokenStream(
                id@,
                *kind,
            ),
        }
    }
}

/// What the caller does after reporting a read.
#[derive(Debug)]
pub enum StreamStep {
    /// Hand the table on and read the next fragment.
    Yield(Table),
    /// Stop reading: the stream has ended, or had ended before.
    Finished,
    /// Stop reading and report the error.
    Failed(ReconstructError),
}

/// What a step states.
pub enum StreamStepSpec {
    Yield(TableView),
    Finished,
    Failed(ReconstructErrorSpec),
}

impl View for StreamStep {
    type V = StreamStepSpec;

    open spec fn view(&self) -> StreamStepSpec {
        match self {
            StreamStep::Yield(t) => StreamStepSpec::Yield(t@),
            StreamStep::Finished => StreamStepSpec::Finished,
            StreamStep::Failed(e) => StreamStepSpec::Failed(e@),
        }
    }
}

/// Where the reading of one stream stands.
pub struct ReaderState {
    /// The schema identifier of the payload.
    pub schema_id: Seq<char>,
    /// The kind of the payload.
    pub payload_type: PayloadType,
    /// Whether a fragment has been handed on.
    pub yielded: bool,
    /// Whether further fragments are read.
    pub open: bool,
}

/// The state after a read, and what the caller does.
///
/// While the stream is open, a fragment is handed on, the end closes the
/// stream, and a fragment that cannot be read closes it with an error:
/// `InvalidStream` where it is the first fragment, `BrokenStream` where
/// tables came before it. Once the stream is closed, every read is answered
/// with `Finished` and nothing is handed on.
pub open spec fn spec_step(s: ReaderState, event: StreamEventSpec) -> (ReaderState, StreamStepSpec) {
    if !s.open {
        (s, StreamStepSpec::Finished)
    } else {
        match event {
            StreamEventSpec::Fragment(t) => (
                ReaderState { yielded: true, ..s },
                StreamStepSpec::Yield(t),
            ),
            StreamEventSpec::End => (ReaderState { open: false, ..s }, StreamStepSpec::Finished),
            StreamEventSpec::Corrupt => (
                ReaderState { open: false, ..s },
                StreamStepSpec::Failed(
                    if s.yielded {
                        ReconstructErrorSpec::BrokenStream(s.schema_id, s.payload_type)
                    } else {
                        ReconstructErrorSpec::InvalidStream(s.schema_id, s.payload_type)
                    },
                ),
            ),
        }
    }
}

/// Follows the reads of the embedded stream of one payload.
#[derive(Debug)]
pub struct Reconstructor {
    schema_id: String,
    payload_type: PayloadType,
    yielded: bool,
    open: bool,
}

impl View for Reconstructor {
    type V = ReaderState;

    closed spec fn view(&self) -> ReaderState {
        ReaderState {
            schema_id: self.schema_id@,
            payload_type: self.payload_type,
            yielded: self.yielded,
            open: self.open,
        }
    }
}

impl Reconstructor {
    /// A reader at the start of the stream of a payload with the given
    /// schema identifier and kind.
    pub fn new(schema_id: &str, payload_type: PayloadType) -> (r: Reconstructor)
        ensures
            r@ == (ReaderState { schema_id: schema_id@, payload_type, yielded: false, open: true }),
    {
        Reconstructor {
            schema_id: String::from_str(schema_id),
            payload_type,
            yielded: false,
            open: true,
        }
    }

    /// Whether further fragments are read.
    pub fn is_open(&self) -> (b: bool)
        ensures
            b == self@.open,
    {
        self.open
    }

    /// The schema identifier of the payload.
    pub fn schema_id(&self) -> (id: &String)
        ensures
            id@ == self@.schema_id,
    {
        &self.schema_id
    }

    /// The kind of the payload.
    pub fn payload_type(&self) -> (kind: PayloadType)
        ensures
            kind == self@.payload_type,
    {
        self.payload_type
    }

    /// Takes what a read gave and says what to do next.
    pub fn step(&mut self, event: StreamEvent) -> (r: StreamStep)
        ensures
            (final(self)@, r@) == spec_step(old(self)@, event@),
    {
        if !self.open {
            return StreamStep::Finished;
        }
        match event {
            StreamEvent::Fragment(t) => {
                self.yielded = true;
                StreamStep::Yield(t)
            },
            StreamEvent::End => {
                self.open = false;
                StreamStep::Finished
            },
            StreamEvent::Corrupt => {
                self.open = false;
                if self.yielded {
                    StreamStep::Failed(
                        ReconstructError::BrokenStream(self.schema_id.clone(), self.payload_type),
                    )
                } else {
                    StreamStep::Failed(
                        ReconstructError::InvalidStream(self.schema_id.clone(), self.payload_type),
                    )
                }
            },
        }
    }
}

/// The place of the first read that is no fragment; the number of reads
/// where all are fragments.
pub open spec fn first_stop(events: Seq<StreamEventSpec>) -> int
    decreases events.len(),
{
    if events.len() == 0 {
        0
    } else if !(events[0] is Fragment) {
        0
    } else {
        1 + first_stop(events.skip(1))
    }
}

/// The tables of the fragments before the first read that is no fragment.
pub open spec fn tables_before_stop(events: Seq<StreamEventSpec>) -> Seq<TableView> {
    Seq::new(first_stop(events) as nat, |i: int| events[i]->Fragment_0)
}

/// The error of a stream: none where the reads end or reach the end of the
/// stream before any fragment fails; else `InvalidStream` where the first
/// read failed, and `BrokenStream` where a later one did.
pub open spec fn stream_error(
    schema_id: Seq<char>,
    payload_type: PayloadType,
    events: Seq<StreamEventSpec>,
) -> Option<ReconstructErrorSpec> {
    let stop = first_stop(events);
    if stop < events.len() && events[stop] is Corrupt {
        if stop == 0 {
            Some(ReconstructErrorSpec::InvalidStream(schema_id, payload_type))
        } else {
            Some(ReconstructErrorSpec::BrokenStream(schema_id, payload_type))
        }
    } else {
        None
    }
}

/// What a list of reads states.
pub open spec fn events_view(events: Seq<StreamEvent>) -> Seq<StreamEventSpec> {
    Seq::new(events.len(), |i: int| events[i]@)
}

/// What a list of tables holds.
pub open spec fn tables_view(tables: Seq<Table>) -> Seq<TableView> {
    Seq::new(tables.len(), |i: int| tables[i]@)
}

/// The tables of a payload with the error that ended its stream, if any.
#[derive(Debug)]
pub struct Reconstruction {
    pub tables: Vec<Table>,
    pub error: Option<ReconstructError>,
}

/// The first stop lies behind every run of fragments that starts the reads.
pub proof fn lemma_first_stop_at_least(events: Seq<StreamEventSpec>, k: int)
    requires
        0 <= k <= events.len(),
        forall|i: int| 0 <= i < k ==> (#[trigger] events[i]) is Fragment,
    ensures
        k <= first_stop(events) <= events.len(),
    decreases events.len(),
{
    if events.len() > 0 && events[0] is Fragment {
        let rest = events.skip(1);
        if k > 0 {
            assert forall|i: int| 0 <= i < k - 1 implies (#[trigger] rest[i]) is Fragment by {
                assert(rest[i] == events[i + 1]);
            }
            lemma_first_stop_at_least(rest, k - 1);
        } else {
            lemma_first_stop_at_least(rest, 0);
        }
    } else if k > 0 {
        assert(events[0] is Fragment);
    }
}

/// A read that is no fragment, with only fragments before it, is the first
/// stop.
pub proof fn lemma_first_stop_at(events: Seq<StreamEventSpec>, k: int)
    requires
        0 <= k <= events.len(),
        forall|i: int| 0 <= i < k ==> (#[trigger] events[i]) is Fragment,
        k < events.len() ==> !(events[k] is Fragment),
    ensures
        first_stop(events) == k,
    decreases events.len(),
{
    if k > 0 {
        let rest = events.skip(1);
        assert(events[0] is Fragment);
        assert forall|i: int| 0 <= i < k - 1 implies (#[trigger] rest[i]) is Fragment by {
            assert(rest[i] == events[i + 1]);
        }
        lemma_first_stop_at(rest, k - 1);
    }
}

/// Rebuilds the tables of a payload from the reads of its embedded stream,
/// taken in their order.
///
/// The tables are those of the fragments up to the first read that is no
/// fragment. A stream without fragments gives no table and no error. Where
/// the first fragment cannot be read the error is `InvalidStream` and there
/// is no table; where a later one cannot be read the error is
/// `BrokenStream` and the tables before it are returned with it. Reads after
/// the first stop are not looked at.
pub fn reconstruct(schema_id: &str, payload_type: PayloadType, events: Vec<StreamEvent>) -> (r:
    Reconstruction)
    ensures
        tables_view(r.tables@) == tables_before_stop(events_view(events@)),
        match r.error {
            Some(e) => stream_error(schema_id@, payload_type, events_view(events@)) == Some(e@),
            None => stream_error(schema_id@, payload_type, events_view(events@)) is None,
        },
{
    let ghost all = events_view(events@);
    let mut reader = Reconstructor::new(schema_id, payload_type);
    let mut tables: Vec<Table> = Vec::new();
    let mut error: Option<ReconstructError> = None;
    let mut events = events;
    let mut rest: Vec<StreamEvent> = Vec::new();
    // Reads are taken from the back of a reversed list, so that each is
    // moved out without a copy.
    let mut n: usize = events.len();
    while n > 0
        invariant
            n == events@.len(),
            n + rest@.len() == all.len(),
            forall|i: int| 0 <= i < n ==> (#[trigger] events@[i])@ == all[i],
            forall|j: int| 0 <= j < rest@.len() ==> (#[trigger] rest@[j])@ == all[all.len() - 1 - j],
        decreases n,
    {
        let last = events.pop().unwrap();
        rest.push(last);
        n -= 1;
    }
    let mut k: usize = 0;
    let total = rest.len();
    while k < total && reader.is_open()
        invariant
            k <= total,
            total == all.len(),
            rest@.len() == total - k,
            forall|j: int| 0 <= j < rest@.len() ==> (#[trigger] rest@[j])@ == all[all.len() - 1 - j],
            reader@.schema_id == schema_id@,
            reader@.payload_type == payload_type,
            reader@.open ==> error is None,
            reader@.open ==> reader@.yielded == (k > 0),
            reader@.open ==> forall|i: int| 0 <= i < k ==> (#[trigger] all[i]) is Fragment,
            reader@.open ==> tables@.len() == k,
            reader@.open ==> forall|i: int|
                0 <= i < k ==> (#[trigger] tables@[i])@ == all[i]->Fragment_0,
            !reader@.open ==> {
                &&& k > 0
                &&& first_stop(all) == k - 1
                &&& tables_view(tables@) == tables_before_stop(all)
                &&& match error {
                    Some(e) => stream_error(schema_id@, payload_type, all) == Some(e@),
                    None => stream_error(schema_id@, payload_type, all) is None,
                }
            },
        decreases total - k,
    {
        let event = rest.pop().unwrap();
        assert(event@ == all[k as int]);
        let ghost before = reader@;
        match reader.step(event) {
            StreamStep::Yield(t) => {
                tables.push(t);
            },
            StreamStep::Finished => {
                proof {
                    lemma_first_stop_at(all, k as int);
                    assert(tables_view(tables@) =~= tables_before_stop(all));
                }
            },
            StreamStep::Failed(e) => {
                proof {
                    lemma_first_stop_at(all, k as int);
                    assert(tables_view(tables@) =~= tables_before_stop(all));
                }
                error = Some(e);
            },
        }
        k += 1;
    }
    proof {
        if reader@.open {
            lemma_first_stop_at(all, k as int);
            assert(tables_view(tables@) =~= tables_before_stop(all));
        }
    }
    Reconstruction { tables, error }
}

} // verus!
