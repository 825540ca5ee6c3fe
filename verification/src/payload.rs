//! The closed set of payload kinds and the sink names derived from them.

use vstd::prelude::*;

verus! {

/// The kind of table that a payload carries.
#[derive(Clone, Copy, Debug, PartialEq, Eq, Structural, Hash)]
pub enum PayloadType {
    Unknown,
    ResourceAttrs,
    ScopeAttrs,
    UnivariateMetrics,
    NumberDataPoints,
    SummaryDataPoints,
    HistogramDataPoints,
    ExpHistogramDataPoints,
    NumberDpAttrs,
    SummaryDpAttrs,
    HistogramDpAttrs,
    ExpHistogramDpAttrs,
    NumberDpExemplars,
    HistogramDpExemplars,
    ExpHistogramDpExemplars,
    NumberDpExemplarAttrs,
    HistogramDpExemplarAttrs,
    ExpHistogramDpExemplarAttrs,
    MultivariateMetrics,
    Logs,
    LogAttrs,
    Spans,
    SpanAttrs,
    SpanEvents,
    SpanLinks,
    SpanEventAttrs,
    SpanLinkAttrs,
}

/// The lower-case form of an ASCII capital; every other character is kept.
pub open spec fn lower_char(c: char) -> char {
    if 'A' <= c && c <= 'Z' {
        ((c as u8) + 32) as char
    } else {
        c
    }
}

/// A text with every ASCII capital replaced by its lower-case form.
pub open spec fn lower_text(s: Seq<char>) -> Seq<char> {
    Seq::new(s.len(), |i: int| lower_char(s[i]))
}

impl PayloadType {
    /// The number that stands for this kind on the wire.
    pub open spec fn spec_code(self) -> int {
        match self {
            PayloadType::Unknown => 0,
            PayloadType::ResourceAttrs => 1,
            PayloadType::ScopeAttrs => 2,
            PayloadType::UnivariateMetrics => 10,
            PayloadType::NumberDataPoints => 11,
            PayloadType::SummaryDataPoints => 12,
            PayloadType::HistogramDataPoints => 13,
            PayloadType::ExpHistogramDataPoints => 14,
            PayloadType::NumberDpAttrs => 15,
            PayloadType::SummaryDpAttrs => 16,
            PayloadType::HistogramDpAttrs => 17,
            PayloadType::ExpHistogramDpAttrs => 18,
            PayloadType::NumberDpExemplars => 19,
            PayloadType::HistogramDpExemplars => 20,
            PayloadType::ExpHistogramDpExemplars => 21,
            PayloadType::NumberDpExemplarAttrs => 22,
            PayloadType::HistogramDpExemplarAttrs => 23,
            PayloadType::ExpHistogramDpExemplarAttrs => 24,
            PayloadType::MultivariateMetrics => 25,
            PayloadType::Logs => 30,
            PayloadType::LogAttrs => 31,
            PayloadType::Spans => 40,
            PayloadType::SpanAttrs => 41,
            PayloadType::SpanEvents => 42,
            PayloadType::SpanLinks => 43,
            PayloadType::SpanEventAttrs => 44,
            PayloadType::SpanLinkAttrs => 45,
        }
    }

    /// The kind with the given wire number, where there is one.
    pub open spec fn spec_from_code(code: int) -> Option<PayloadType> {
        if code == 0 {
            Some(PayloadType::Unknown)
        } else if code == 1 {
            Some(PayloadType::ResourceAttrs)
        } else if code == 2 {
            Some(PayloadType::ScopeAttrs)
        } else if code == 10 {
            Some(PayloadType::UnivariateMetrics)
        } else if code == 11 {
            Some(PayloadType::NumberDataPoints)
        } else if code == 12 {
            Some(PayloadType::SummaryDataPoints)
        } else if code == 13 {
            Some(PayloadType::HistogramDataPoints)
        } else if code == 14 {
            Some(PayloadType::ExpHistogramDataPoints)
        } else if code == 15 {
            Some(PayloadType::NumberDpAttrs)
        } else if code == 16 {
            Some(PayloadType::SummaryDpAttrs)
        } else if code == 17 {
            Some(PayloadType::HistogramDpAttrs)
        } else if code == 18 {
            Some(PayloadType::ExpHistogramDpAttrs)
        } else if code == 19 {
            Some(PayloadType::NumberDpExemplars)
        } else if code == 20 {
            Some(PayloadType::HistogramDpExemplars)
        } else if code == 21 {
            Some(PayloadType::ExpHistogramDpExemplars)
        } else if code == 22 {
            Some(PayloadType::NumberDpExemplarAttrs)
        } else if code == 23 {
            Some(PayloadType::HistogramDpExemplarAttrs)
        } else if code == 24 {
            Some(PayloadType::ExpHistogramDpExemplarAttrs)
        } else if code == 25 {
            Some(PayloadType::MultivariateMetrics)
        } else if code == 30 {
            Some(PayloadType::Logs)
        } else if code == 31 {
            Some(PayloadType::LogAttrs)
        } else if code == 40 {
            Some(PayloadType::Spans)
        } else if code == 41 {
            Some(PayloadType::SpanAttrs)
        } else if code == 42 {
            Some(PayloadType::SpanEvents)
        } else if code == 43 {
            Some(PayloadType::SpanLinks)
        } else if code == 44 {
            Some(PayloadType::SpanEventAttrs)
        } else if code == 45 {
            Some(PayloadType::SpanLinkAttrs)
        } else {
            None
        }
    }

    /// Whether some kind has this wire number.
    pub open spec fn known_code(code: int) -> bool {
        0 <= code <= 2 || 10 <= code <= 25 || 30 <= code <= 31 || 40 <= code <= 45
    }

    /// The wire number of this kind.
    pub fn code(self) -> (c: i32)
        ensures
            c == self.spec_code(),
            Self::known_code(c as int),
    {
        match self {
            PayloadType::Unknown => 0,
            PayloadType::ResourceAttrs => 1,
            PayloadType::ScopeAttrs => 2,
            PayloadType::UnivariateMetrics => 10,
            PayloadType::NumberDataPoints => 11,
            PayloadType::SummaryDataPoints => 12,
            PayloadType::HistogramDataPoints => 13,
            PayloadType::ExpHistogramDataPoints => 14,
            PayloadType::NumberDpAttrs => 15,
            PayloadType::SummaryDpAttrs => 16,
            PayloadType::HistogramDpAttrs => 17,
            PayloadType::ExpHistogramDpAttrs => 18,
            PayloadType::NumberDpExemplars => 19,
            PayloadType::HistogramDpExemplars => 20,
            PayloadType::ExpHistogramDpExemplars => 21,
            PayloadType::NumberDpExemplarAttrs => 22,
            PayloadType::HistogramDpExemplarAttrs => 23,
            PayloadType::ExpHistogramDpExemplarAttrs => 24,
            PayloadType::MultivariateMetrics => 25,
            PayloadType::Logs => 30,
            PayloadType::LogAttrs => 31,
            PayloadType::Spans => 40,
            PayloadType::SpanAttrs => 41,
            PayloadType::SpanEvents => 42,
            PayloadType::SpanLinks => 43,
            PayloadType::SpanEventAttrs => 44,
            PayloadType::SpanLinkAttrs => 45,
        }
    }

    /// The kind with the given wire number. A number that no kind carries is
    /// rejected.
    pub fn from_code(code: i32) -> (r: Option<PayloadType>)
        ensures
            r == Self::spec_from_code(code as int),
            r is Some <==> Self::known_code(code as int),
            r matches Some(t) ==> t.spec_code() == code,
            r is None ==> forall|t: PayloadType| t.spec_code() != code,
    {
        match code {
            0 => Some(PayloadType::Unknown),
            1 => Some(PayloadType::ResourceAttrs),
            2 => Some(PayloadType::ScopeAttrs),
            10 => Some(PayloadType::UnivariateMetrics),
            11 => Some(PayloadType::NumberDataPoints),
            12 => Some(PayloadType::SummaryDataPoints),
            13 => Some(PayloadType::HistogramDataPoints),
            14 => Some(PayloadType::ExpHistogramDataPoints),
            15 => Some(PayloadType::NumberDpAttrs),
            16 => Some(PayloadType::SummaryDpAttrs),
            17 => Some(PayloadType::HistogramDpAttrs),
            18 => Some(PayloadType::ExpHistogramDpAttrs),
            19 => Some(PayloadType::NumberDpExemplars),
            20 => Some(PayloadType::HistogramDpExemplars),
            21 => Some(PayloadType::ExpHistogramDpExemplars),
            22 => Some(PayloadType::NumberDpExemplarAttrs),
            23 => Some(PayloadType::HistogramDpExemplarAttrs),
            24 => Some(PayloadType::ExpHistogramDpExemplarAttrs),
            25 => Some(PayloadType::MultivariateMetrics),
            30 => Some(PayloadType::Logs),
            31 => Some(PayloadType::LogAttrs),
            40 => Some(PayloadType::Spans),
            41 => Some(PayloadType::SpanAttrs),
            42 => Some(PayloadType::SpanEvents),
            43 => Some(PayloadType::SpanLinks),
            44 => Some(PayloadType::SpanEventAttrs),
            45 => Some(PayloadType::SpanLinkAttrs),
            _ => None,
        }
    }

    /// The name of this kind.
    pub open spec fn spec_name(self) -> Seq<char> {
        match self {
            PayloadType::Unknown => "Unknown"@,
            PayloadType::ResourceAttrs => "ResourceAttrs"@,
            PayloadType::ScopeAttrs => "ScopeAttrs"@,
            PayloadType::UnivariateMetrics => "UnivariateMetrics"@,
            PayloadType::NumberDataPoints => "NumberDataPoints"@,
            PayloadType::SummaryDataPoints => "SummaryDataPoints"@,
            PayloadType::HistogramDataPoints => "HistogramDataPoints"@,
            PayloadType::ExpHistogramDataPoints => "ExpHistogramDataPoints"@,
            PayloadType::NumberDpAttrs => "NumberDpAttrs"@,
            PayloadType::SummaryDpAttrs => "SummaryDpAttrs"@,
            PayloadType::HistogramDpAttrs => "HistogramDpAttrs"@,
            PayloadType::ExpHistogramDpAttrs => "ExpHistogramDpAttrs"@,
            PayloadType::NumberDpExemplars => "NumberDpExemplars"@,
            PayloadType::HistogramDpExemplars => "HistogramDpExemplars"@,
            PayloadType::ExpHistogramDpExemplars => "ExpHistogramDpExemplars"@,
            PayloadType::NumberDpExemplarAttrs => "NumberDpExemplarAttrs"@,
            PayloadType::HistogramDpExemplarAttrs => "HistogramDpExemplarAttrs"@,
            PayloadType::ExpHistogramDpExemplarAttrs => "ExpHistogramDpExemplarAttrs"@,
            PayloadType::MultivariateMetrics => "MultivariateMetrics"@,
            PayloadType::Logs => "Logs"@,
            PayloadType::LogAttrs => "LogAttrs"@,
            PayloadType::Spans => "Spans"@,
            PayloadType::SpanAttrs => "SpanAttrs"@,
            PayloadType::SpanEvents => "SpanEvents"@,
            PayloadType::SpanLinks => "SpanLinks"@,
            PayloadType::SpanEventAttrs => "SpanEventAttrs"@,
            PayloadType::SpanLinkAttrs => "SpanLinkAttrs"@,
        }
    }

    /// The name under which a sink holds the tables of this kind: the name
    /// of the kind in lower case.
    pub open spec fn spec_table_name(self) -> Seq<char> {
        match self {
            PayloadType::Unknown => "unknown"@,
            PayloadType::ResourceAttrs => "resourceattrs"@,
            PayloadType::ScopeAttrs => "scopeattrs"@,
            PayloadType::UnivariateMetrics => "univariatemetrics"@,
            PayloadType::NumberDataPoints => "numberdatapoints"@,
            PayloadType::SummaryDataPoints => "summarydatapoints"@,
            PayloadType::HistogramDataPoints => "histogramdatapoints"@,
            PayloadType::ExpHistogramDataPoints => "exphistogramdatapoints"@,
            PayloadType::NumberDpAttrs => "numberdpattrs"@,
            PayloadType::SummaryDpAttrs => "summarydpattrs"@,
            PayloadType::HistogramDpAttrs => "histogramdpattrs"@,
            PayloadType::ExpHistogramDpAttrs => "exphistogramdpattrs"@,
            PayloadType::NumberDpExemplars => "numberdpexemplars"@,
            PayloadType::HistogramDpExemplars => "histogramdpexemplars"@,
            PayloadType::ExpHistogramDpExemplars => "exphistogramdpexemplars"@,
            PayloadType::NumberDpExemplarAttrs => "numberdpexemplarattrs"@,
            PayloadType::HistogramDpExemplarAttrs => "histogramdpexemplarattrs"@,
            PayloadType::ExpHistogramDpExemplarAttrs => "exphistogramdpexemplarattrs"@,
            PayloadType::MultivariateMetrics => "multivariatemetrics"@,
            PayloadType::Logs => "logs"@,
            PayloadType::LogAttrs => "logattrs"@,
            PayloadType::Spans => "spans"@,
            PayloadType::SpanAttrs => "spanattrs"@,
            PayloadType::SpanEvents => "spanevents"@,
            PayloadType::SpanLinks => "spanlinks"@,
            PayloadType::SpanEventAttrs => "spaneventattrs"@,
            PayloadType::SpanLinkAttrs => "spanlinkattrs"@,
        }
    }

    /// The name of this kind.
    pub fn name(self) -> (s: &'static str)
        ensures
            s@ == self.spec_name(),
    {
        match self {
            PayloadType::Unknown => "Unknown",
            PayloadType::ResourceAttrs => "ResourceAttrs",
            PayloadType::ScopeAttrs => "ScopeAttrs",
            PayloadType::UnivariateMetrics => "UnivariateMetrics",
            PayloadType::NumberDataPoints => "NumberDataPoints",
            PayloadType::SummaryDataPoints => "SummaryDataPoints",
            PayloadType::HistogramDataPoints => "HistogramDataPoints",
            PayloadType::ExpHistogramDataPoints => "ExpHistogramDataPoints",
            PayloadType::NumberDpAttrs => "NumberDpAttrs",
            PayloadType::SummaryDpAttrs => "SummaryDpAttrs",
            PayloadType::HistogramDpAttrs => "HistogramDpAttrs",
            PayloadType::ExpHistogramDpAttrs => "ExpHistogramDpAttrs",
            PayloadType::NumberDpExemplars => "NumberDpExemplars",
            PayloadType::HistogramDpExemplars => "HistogramDpExemplars",
            PayloadType::ExpHistogramDpExemplars => "ExpHistogramDpExemplars",
            PayloadType::NumberDpExemplarAttrs => "NumberDpExemplarAttrs",
            PayloadType::HistogramDpExemplarAttrs => "HistogramDpExemplarAttrs",
            PayloadType::ExpHistogramDpExemplarAttrs => "ExpHistogramDpExemplarAttrs",
            PayloadType::MultivariateMetrics => "MultivariateMetrics",
            PayloadType::Logs => "Logs",
            PayloadType::LogAttrs => "LogAttrs",
            PayloadType::Spans => "Spans",
            PayloadType::SpanAttrs => "SpanAttrs",
            PayloadType::SpanEvents => "SpanEvents",
            PayloadType::SpanLinks => "SpanLinks",
            PayloadType::SpanEventAttrs => "SpanEventAttrs",
            PayloadType::SpanLinkAttrs => "SpanLinkAttrs",
        }
    }

    /// The name under which a sink holds the tables of this kind: the name
    /// of the kind in lower case.
    pub fn table_name(self) -> (s: String)
        ensures
            s@ == self.spec_table_name(),
    {
        let name = match self {
            PayloadType::Unknown => "unknown",
            PayloadType::ResourceAttrs => "resourceattrs",
            PayloadType::ScopeAttrs => "scopeattrs",
            PayloadType::UnivariateMetrics => "univariatemetrics",
            PayloadType::NumberDataPoints => "numberdatapoints",
            PayloadType::SummaryDataPoints => "summarydatapoints",
            PayloadType::HistogramDataPoints => "histogramdatapoints",
            PayloadType::ExpHistogramDataPoints => "exphistogramdatapoints",
            PayloadType::NumberDpAttrs => "numberdpattrs",
            PayloadType::SummaryDpAttrs => "summarydpattrs",
            PayloadType::HistogramDpAttrs => "histogramdpattrs",
            PayloadType::ExpHistogramDpAttrs => "exphistogramdpattrs",
            PayloadType::NumberDpExemplars => "numberdpexemplars",
            PayloadType::HistogramDpExemplars => "histogramdpexemplars",
            PayloadType::ExpHistogramDpExemplars => "exphistogramdpexemplars",
            PayloadType::NumberDpExemplarAttrs => "numberdpexemplarattrs",
            PayloadType::HistogramDpExemplarAttrs => "histogramdpexemplarattrs",
            PayloadType::ExpHistogramDpExemplarAttrs => "exphistogramdpexemplarattrs",
            PayloadType::MultivariateMetrics => "multivariatemetrics",
            PayloadType::Logs => "logs",
            PayloadType::LogAttrs => "logattrs",
            PayloadType::Spans => "spans",
            PayloadType::SpanAttrs => "spanattrs",
            PayloadType::SpanEvents => "spanevents",
            PayloadType::SpanLinks => "spanlinks",
            PayloadType::SpanEventAttrs => "spaneventattrs",
            PayloadType::SpanLinkAttrs => "spanlinkattrs",
        };
        String::from_str(name)
    }

    /// Whether this kind is the primary record table of a signal, the table
    /// whose rows carry the identifiers that the side tables refer to.
    pub open spec fn spec_is_primary(self) -> bool {
        self is Logs || self is Spans || self is UnivariateMetrics || self is MultivariateMetrics
    }

    /// Whether the rows of this kind refer to a parent row by `parent_id`:
    /// every kind but the primary tables and `Unknown`.
    pub open spec fn spec_refers_to_parent(self) -> bool {
        !self.spec_is_primary() && !(self is Unknown)
    }

    /// Whether this kind is the primary record table of a signal.
    #[verifier::when_used_as_spec(spec_is_primary)]
    pub fn is_primary(self) -> (b: bool)
        ensures
            b == self.spec_is_primary(),
    {
        match self {
            PayloadType::Logs
            | PayloadType::Spans
            | PayloadType::UnivariateMetrics
            | PayloadType::MultivariateMetrics => true,
            _ => false,
        }
    }

    /// Whether the rows of this kind refer to a parent row by `parent_id`.
    #[verifier::when_used_as_spec(spec_refers_to_parent)]
    pub fn refers_to_parent(self) -> (b: bool)
        ensures
            b == self.spec_refers_to_parent(),
    {
        match self {
            PayloadType::Unknown => false,
            _ => !self.is_primary(),
        }
    }
}

/// The table name of a kind is the name of the kind with every capital
/// replaced by its lower-case letter.
pub proof fn lemma_table_name_is_lower_case(t: PayloadType)
    ensures
        t.spec_table_name() == lower_text(t.spec_name()),
{
    match t {
        PayloadType::Unknown => {
            reveal_strlit("Unknown");
            reveal_strlit("unknown");
            assert("unknown"@ =~= lower_text("Unknown"@));
        },
        PayloadType::ResourceAttrs => {
            reveal_strlit("ResourceAttrs");
            reveal_strlit("resourceattrs");
            assert("resourceattrs"@ =~= lower_text("ResourceAttrs"@));
        },
        PayloadType::ScopeAttrs => {
            reveal_strlit("ScopeAttrs");
            reveal_strlit("scopeattrs");
            assert("scopeattrs"@ =~= lower_text("ScopeAttrs"@));
        },
        PayloadType::UnivariateMetrics => {
            reveal_strlit("UnivariateMetrics");
            reveal_strlit("univariatemetrics");
            assert("univariatemetrics"@ =~= lower_text("UnivariateMetrics"@));
        },
        PayloadType::NumberDataPoints => {
            reveal_strlit("NumberDataPoints");
            reveal_strlit("numberdatapoints");
            assert("numberdatapoints"@ =~= lower_text("NumberDataPoints"@));
        },
        PayloadType::SummaryDataPoints => {
            reveal_strlit("SummaryDataPoints");
            reveal_strlit("summarydatapoints");
            assert("summarydatapoints"@ =~= lower_text("SummaryDataPoints"@));
        },
        PayloadType::HistogramDataPoints => {
            reveal_strlit("HistogramDataPoints");
            reveal_strlit("histogramdatapoints");
            assert("histogramdatapoints"@ =~= lower_text("HistogramDataPoints"@));
        },
        PayloadType::ExpHistogramDataPoints => {
            reveal_strlit("ExpHistogramDataPoints");
            reveal_strlit("exphistogramdatapoints");
            assert("exphistogramdatapoints"@ =~= lower_text("ExpHistogramDataPoints"@));
        },
        PayloadType::NumberDpAttrs => {
            reveal_strlit("NumberDpAttrs");
            reveal_strlit("numberdpattrs");
            assert("numberdpattrs"@ =~= lower_text("NumberDpAttrs"@));
        },
        PayloadType::SummaryDpAttrs => {
            reveal_strlit("SummaryDpAttrs");
            reveal_strlit("summarydpattrs");
            assert("summarydpattrs"@ =~= lower_text("SummaryDpAttrs"@));
        },
        PayloadType::HistogramDpAttrs => {
            reveal_strlit("HistogramDpAttrs");
            reveal_strlit("histogramdpattrs");
            assert("histogramdpattrs"@ =~= lower_text("HistogramDpAttrs"@));
        },
        PayloadType::ExpHistogramDpAttrs => {
            reveal_strlit("ExpHistogramDpAttrs");
            reveal_strlit("exphistogramdpattrs");
            assert("exphistogramdpattrs"@ =~= lower_text("ExpHistogramDpAttrs"@));
        },
        PayloadType::NumberDpExemplars => {
            reveal_strlit("NumberDpExemplars");
            reveal_strlit("numberdpexemplars");
            assert("numberdpexemplars"@ =~= lower_text("NumberDpExemplars"@));
        },
        PayloadType::HistogramDpExemplars => {
            reveal_strlit("HistogramDpExemplars");
            reveal_strlit("histogramdpexemplars");
            assert("histogramdpexemplars"@ =~= lower_text("HistogramDpExemplars"@));
        },
        PayloadType::ExpHistogramDpExemplars => {
            reveal_strlit("ExpHistogramDpExemplars");
            reveal_strlit("exphistogramdpexemplars");
            assert("exphistogramdpexemplars"@ =~= lower_text("ExpHistogramDpExemplars"@));
        },
        PayloadType::NumberDpExemplarAttrs => {
            reveal_strlit("NumberDpExemplarAttrs");
            reveal_strlit("numberdpexemplarattrs");
            assert("numberdpexemplarattrs"@ =~= lower_text("NumberDpExemplarAttrs"@));
        },
        PayloadType::HistogramDpExemplarAttrs => {
            reveal_strlit("HistogramDpExemplarAttrs");
            reveal_strlit("histogramdpexemplarattrs");
            assert("histogramdpexemplarattrs"@ =~= lower_text("HistogramDpExemplarAttrs"@));
        },
        PayloadType::ExpHistogramDpExemplarAttrs => {
            reveal_strlit("ExpHistogramDpExemplarAttrs");
            reveal_strlit("exphistogramdpexemplarattrs");
            assert("exphistogramdpexemplarattrs"@ =~= lower_text("ExpHistogramDpExemplarAttrs"@));
        },
        PayloadType::MultivariateMetrics => {
            reveal_strlit("MultivariateMetrics");
            reveal_strlit("multivariatemetrics");
            assert("multivariatemetrics"@ =~= lower_text("MultivariateMetrics"@));
        },
        PayloadType::Logs => {
            reveal_strlit("Logs");
            reveal_strlit("logs");
            assert("logs"@ =~= lower_text("Logs"@));
        },
        PayloadType::LogAttrs => {
            reveal_strlit("LogAttrs");
            reveal_strlit("logattrs");
            assert("logattrs"@ =~= lower_text("LogAttrs"@));
        },
        PayloadType::Spans => {
            reveal_strlit("Spans");
            reveal_strlit("spans");
            assert("spans"@ =~= lower_text("Spans"@));
        },
        PayloadType::SpanAttrs => {
            reveal_strlit("SpanAttrs");
            reveal_strlit("spanattrs");
            assert("spanattrs"@ =~= lower_text("SpanAttrs"@));
        },
        PayloadType::SpanEvents => {
            reveal_strlit("SpanEvents");
            reveal_strlit("spanevents");
            assert("spanevents"@ =~= lower_text("SpanEvents"@));
        },
        PayloadType::SpanLinks => {
            reveal_strlit("SpanLinks");
            reveal_strlit("spanlinks");
            assert("spanlinks"@ =~= lower_text("SpanLinks"@));
        },
        PayloadType::SpanEventAttrs => {
            reveal_strlit("SpanEventAttrs");
            reveal_strlit("spaneventattrs");
            assert("spaneventattrs"@ =~= lower_text("SpanEventAttrs"@));
        },
        PayloadType::SpanLinkAttrs => {
            reveal_strlit("SpanLinkAttrs");
            reveal_strlit("spanlinkattrs");
            assert("spanlinkattrs"@ =~= lower_text("SpanLinkAttrs"@));
        },
    }
}

/// The length of a text with its seventh character, a blank where the text
/// is shorter.
spec fn name_mark(s: Seq<char>) -> (nat, char) {
    (
        s.len(),
        if s.len() > 6 {
            s[6]
        } else {
            ' '
        },
    )
}

/// The mark of the table name of each kind.
spec fn table_name_mark(t: PayloadType) -> (nat, char) {
    match t {
        PayloadType::Unknown => (7, 'n'),
        PayloadType::ResourceAttrs => (13, 'c'),
        PayloadType::ScopeAttrs => (10, 't'),
        PayloadType::UnivariateMetrics => (17, 'i'),
        PayloadType::NumberDataPoints => (16, 'd'),
        PayloadType::SummaryDataPoints => (17, 'y'),
        PayloadType::HistogramDataPoints => (19, 'r'),
        PayloadType::ExpHistogramDataPoints => (22, 't'),
        PayloadType::NumberDpAttrs => (13, 'd'),
        PayloadType::SummaryDpAttrs => (14, 'y'),
        PayloadType::HistogramDpAttrs => (16, 'r'),
        PayloadType::ExpHistogramDpAttrs => (19, 't'),
        PayloadType::NumberDpExemplars => (17, 'd'),
        PayloadType::HistogramDpExemplars => (20, 'r'),
        PayloadType::ExpHistogramDpExemplars => (23, 't'),
        PayloadType::NumberDpExemplarAttrs => (21, 'd'),
        PayloadType::HistogramDpExemplarAttrs => (24, 'r'),
        PayloadType::ExpHistogramDpExemplarAttrs => (27, 't'),
        PayloadType::MultivariateMetrics => (19, 'a'),
        PayloadType::Logs => (4, ' '),
        PayloadType::LogAttrs => (8, 'r'),
        PayloadType::Spans => (5, ' '),
        PayloadType::SpanAttrs => (9, 't'),
        PayloadType::SpanEvents => (10, 'e'),
        PayloadType::SpanLinks => (9, 'n'),
        PayloadType::SpanEventAttrs => (14, 'e'),
        PayloadType::SpanLinkAttrs => (13, 'n'),
    }
}

/// The table name of each kind has the mark that `table_name_mark` gives.
proof fn lemma_table_name_mark(t: PayloadType)
    ensures
        name_mark(t.spec_table_name()) == table_name_mark(t),
{
    match t {
        PayloadType::Unknown => {
            reveal_strlit("unknown");
        },
        PayloadType::ResourceAttrs => {
            reveal_strlit("resourceattrs");
        },
        PayloadType::ScopeAttrs => {
            reveal_strlit("scopeattrs");
        },
        PayloadType::UnivariateMetrics => {
            reveal_strlit("univariatemetrics");
        },
        PayloadType::NumberDataPoints => {
            reveal_strlit("numberdatapoints");
        },
        PayloadType::SummaryDataPoints => {
            reveal_strlit("summarydatapoints");
        },
        PayloadType::HistogramDataPoints => {
            reveal_strlit("histogramdatapoints");
        },
        PayloadType::ExpHistogramDataPoints => {
            reveal_strlit("exphistogramdatapoints");
        },
        PayloadType::NumberDpAttrs => {
            reveal_strlit("numberdpattrs");
        },
        PayloadType::SummaryDpAttrs => {
            reveal_strlit("summarydpattrs");
        },
        PayloadType::HistogramDpAttrs => {
            reveal_strlit("histogramdpattrs");
        },
        PayloadType::ExpHistogramDpAttrs => {
            reveal_strlit("exphistogramdpattrs");
        },
        PayloadType::NumberDpExemplars => {
            reveal_strlit("numberdpexemplars");
        },
        PayloadType::HistogramDpExemplars => {
            reveal_strlit("histogramdpexemplars");
        },
        PayloadType::ExpHistogramDpExemplars => {
            reveal_strlit("exphistogramdpexemplars");
        },
        PayloadType::NumberDpExemplarAttrs => {
            reveal_strlit("numberdpexemplarattrs");
        },
        PayloadType::HistogramDpExemplarAttrs => {
            reveal_strlit("histogramdpexemplarattrs");
        },
        PayloadType::ExpHistogramDpExemplarAttrs => {
            reveal_strlit("exphistogramdpexemplarattrs");
        },
        PayloadType::MultivariateMetrics => {
            reveal_strlit("multivariatemetrics");
        },
        PayloadType::Logs => {
            reveal_strlit("logs");
        },
        PayloadType::LogAttrs => {
            reveal_strlit("logattrs");
        },
        PayloadType::Spans => {
            reveal_strlit("spans");
        },
        PayloadType::SpanAttrs => {
            reveal_strlit("spanattrs");
        },
        PayloadType::SpanEvents => {
            reveal_strlit("spanevents");
        },
        PayloadType::SpanLinks => {
            reveal_strlit("spanlinks");
        },
        PayloadType::SpanEventAttrs => {
            reveal_strlit("spaneventattrs");
        },
        PayloadType::SpanLinkAttrs => {
            reveal_strlit("spanlinkattrs");
        },
    }
}

/// Two kinds with the same table name are the same kind: no two kinds share
/// a target in a sink.
pub proof fn lemma_table_name_is_injective(a: PayloadType, b: PayloadType)
    requires
        a.spec_table_name() == b.spec_table_name(),
    ensures
        a == b,
{
    lemma_table_name_mark(a);
    lemma_table_name_mark(b);
}

/// A kind is the kind of its wire number, and the wire number of the kind of
/// a number is that number.
pub proof fn lemma_code_round_trip(t: PayloadType, code: int)
    ensures
        PayloadType::spec_from_code(t.spec_code()) == Some(t),
        PayloadType::spec_from_code(code) matches Some(k) ==> k.spec_code() == code,
        PayloadType::spec_from_code(code) is Some <==> PayloadType::known_code(code),
{
}

} // verus!
