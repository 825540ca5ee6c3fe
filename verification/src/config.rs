//! What a run is told: which kinds of payload it processes, which sinks it
//! feeds and where, and how it goes on after a failure.

use crate::normalize::{default_steps, NormalizationRules};
use crate::payload::PayloadType;
use crate::pipeline::PartialPolicy;
use crate::route::RoutePolicy;
use vstd::prelude::*;

verus! {

/// A sink of a run.
#[derive(Clone, Copy, Debug, PartialEq, Eq, Structural)]
pub enum SinkKind {
    /// The tables that queries see, held in memory.
    QuerySurface,
    /// Columnar files below a root directory.
    FileExport,
    /// Tables of a transactional catalog.
    Catalog,
}

/// The options of a run.
#[derive(Debug)]
pub struct Config {
    /// The kinds of payload to process; `None` for all kinds.
    pub targets: Option<Vec<PayloadType>>,
    /// Whether tables are registered with the query surface.
    pub query_surface: bool,
    /// The root directory of the file export, where there is one.
    pub file_root: Option<String>,
    /// The prefix of the table names in the catalog, where there is one.
    pub catalog_prefix: Option<String>,
    /// What to do with the other sinks after one has failed.
    pub route_policy: RoutePolicy,
    /// What to do with the tables that a payload gave before it failed.
    pub partial_policy: PartialPolicy,
    /// Which transforms normalise the tables of which kind of payload.
    pub rules: NormalizationRules,
}

/// The sinks that a run feeds, in the order in which it asks them.
pub open spec fn active_sinks(query_surface: bool, file_export: bool, catalog: bool) -> Seq<
    SinkKind,
> {
    let q = if query_surface {
        seq![SinkKind::QuerySurface]
    } else {
        Seq::empty()
    };
    let f = if file_export {
        seq![SinkKind::FileExport]
    } else {
        Seq::empty()
    };
    let c = if catalog {
        seq![SinkKind::Catalog]
    } else {
        Seq::empty()
    };
    q + f + c
}

impl Config {
    /// Whether payloads of the given kind are processed.
    pub open spec fn spec_selects(&self, kind: PayloadType) -> bool {
        match self.targets {
            Some(kinds) => kinds@.contains(kind),
            None => true,
        }
    }

    /// The options of a run that processes every kind of payload, feeds no
    /// sink, reports failures and goes on, keeps the tables that came before
    /// a failure, and normalises every kind with its default transforms.
    pub fn new() -> (c: Config)
        ensures
            c.targets is None,
            !c.query_surface,
            c.file_root is None,
            c.catalog_prefix is None,
            c.route_policy == RoutePolicy::ReportAndContinue,
            c.partial_policy == PartialPolicy::Keep,
            forall|kind: PayloadType| #[trigger] c.rules.steps_for(kind) == default_steps(kind),
    {
        Config {
            targets: None,
            query_surface: false,
            file_root: None,
            catalog_prefix: None,
            route_policy: RoutePolicy::ReportAndContinue,
            partial_policy: PartialPolicy::Keep,
            rules: NormalizationRules::new(),
        }
    }

    /// Whether payloads of the given kind are processed.
    #[verifier::loop_isolation(false)]
    pub fn selects(&self, kind: PayloadType) -> (b: bool)
        ensures
            b == self.spec_selects(kind),
    {
        match &self.targets {
            None => true,
            Some(kinds) => {
                let mut i: usize = 0;
                while i < kinds.len()
                    invariant
                        i <= kinds@.len(),
                        forall|j: int| 0 <= j < i ==> kinds@[j] != kind,
                    decreases kinds@.len() - i,
                {
                    if kinds[i] == kind {
                        assert(kinds@[i as int] == kind);
                        return true;
                    }
                    i += 1;
                }
                false
            },
        }
    }

    /// The sinks of the run, in the order in which they are asked: the query
    /// surface, the file export and the catalog, each where it is active.
    pub fn sinks(&self) -> (r: Vec<SinkKind>)
        ensures
            r@ == active_sinks(
                self.query_surface,
                self.file_root is Some,
                self.catalog_prefix is Some,
            ),
    {
        let mut r: Vec<SinkKind> = Vec::new();
        if self.query_surface {
            r.push(SinkKind::QuerySurface);
        }
        if self.file_root.is_some() {
            r.push(SinkKind::FileExport);
        }
        if self.catalog_prefix.is_some() {
            r.push(SinkKind::Catalog);
        }
        assert(r@ =~= active_sinks(
            self.query_surface,
            self.file_root is Some,
            self.catalog_prefix is Some,
        ));
        r
    }
}

} // verus!
