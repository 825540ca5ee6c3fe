use otap_pipeline::payload::PayloadType;

const ALL: [(PayloadType, i32, &str, &str); 27] = [
    (PayloadType::Unknown, 0, "Unknown", "unknown"),
    (PayloadType::ResourceAttrs, 1, "ResourceAttrs", "resourceattrs"),
    (PayloadType::ScopeAttrs, 2, "ScopeAttrs", "scopeattrs"),
    (PayloadType::UnivariateMetrics, 10, "UnivariateMetrics", "univariatemetrics"),
    (PayloadType::NumberDataPoints, 11, "NumberDataPoints", "numberdatapoints"),
    (PayloadType::SummaryDataPoints, 12, "SummaryDataPoints", "summarydatapoints"),
    (PayloadType::HistogramDataPoints, 13, "HistogramDataPoints", "histogramdatapoints"),
    (PayloadType::ExpHistogramDataPoints, 14, "ExpHistogramDataPoints", "exphistogramdatapoints"),
    (PayloadType::NumberDpAttrs, 15, "NumberDpAttrs", "numberdpattrs"),
    (PayloadType::SummaryDpAttrs, 16, "SummaryDpAttrs", "summarydpattrs"),
    (PayloadType::HistogramDpAttrs, 17, "HistogramDpAttrs", "histogramdpattrs"),
    (PayloadType::ExpHistogramDpAttrs, 18, "ExpHistogramDpAttrs", "exphistogramdpattrs"),
    (PayloadType::NumberDpExemplars, 19, "NumberDpExemplars", "numberdpexemplars"),
    (PayloadType::HistogramDpExemplars, 20, "HistogramDpExemplars", "histogramdpexemplars"),
    (PayloadType::ExpHistogramDpExemplars, 21, "ExpHistogramDpExemplars", "exphistogramdpexemplars"),
    (PayloadType::NumberDpExemplarAttrs, 22, "NumberDpExemplarAttrs", "numberdpexemplarattrs"),
    (PayloadType::HistogramDpExemplarAttrs, 23, "HistogramDpExemplarAttrs", "histogramdpexemplarattrs"),
    (
        PayloadType::ExpHistogramDpExemplarAttrs,
        24,
        "ExpHistogramDpExemplarAttrs",
        "exphistogramdpexemplarattrs",
    ),
    (PayloadType::MultivariateMetrics, 25, "MultivariateMetrics", "multivariatemetrics"),
    (PayloadType::Logs, 30, "Logs", "logs"),
    (PayloadType::LogAttrs, 31, "LogAttrs", "logattrs"),
    (PayloadType::Spans, 40, "Spans", "spans"),
    (PayloadType::SpanAttrs, 41, "SpanAttrs", "spanattrs"),
    (PayloadType::SpanEvents, 42, "SpanEvents", "spanevents"),
    (PayloadType::SpanLinks, 43, "SpanLinks", "spanlinks"),
    (PayloadType::SpanEventAttrs, 44, "SpanEventAttrs", "spaneventattrs"),
    (PayloadType::SpanLinkAttrs, 45, "SpanLinkAttrs", "spanlinkattrs"),
];

#[test]
fn every_kind_has_its_code() {
    for (kind, code, _, _) in ALL {
        assert_eq!(kind.code(), code);
        assert_eq!(PayloadType::from_code(code), Some(kind));
    }
}

#[test]
fn unknown_codes_are_rejected() {
    let known: Vec<i32> = ALL.iter().map(|k| k.1).collect();
    for code in -5..60 {
        if !known.contains(&code) {
            assert_eq!(PayloadType::from_code(code), None, "code {}", code);
        }
    }
    assert_eq!(PayloadType::from_code(i32::MAX), None);
    assert_eq!(PayloadType::from_code(i32::MIN), None);
    assert_eq!(PayloadType::from_code(3), None);
    assert_eq!(PayloadType::from_code(26), None);
    assert_eq!(PayloadType::from_code(46), None);
}

#[test]
fn every_kind_has_its_names() {
    for (kind, _, name, table) in ALL {
        assert_eq!(kind.name(), name);
        assert_eq!(kind.table_name(), table);
        assert_eq!(kind.table_name(), format!("{:?}", kind).to_lowercase());
    }
}

#[test]
fn table_names_differ() {
    for (a, _, _, x) in ALL {
        for (b, _, _, y) in ALL {
            assert_eq!(a == b, x == y);
        }
    }
}

#[test]
fn primary_tables_and_side_tables() {
    let primary = [
        PayloadType::Logs,
        PayloadType::Spans,
        PayloadType::UnivariateMetrics,
        PayloadType::MultivariateMetrics,
    ];
    for (kind, _, _, _) in ALL {
        assert_eq!(kind.is_primary(), primary.contains(&kind));
        assert_eq!(kind.refers_to_parent(), !primary.contains(&kind) && kind != PayloadType::Unknown);
    }
    assert!(PayloadType::LogAttrs.refers_to_parent());
    assert!(PayloadType::ResourceAttrs.refers_to_parent());
    assert!(!PayloadType::Unknown.refers_to_parent());
    assert!(!PayloadType::Unknown.is_primary());
}
